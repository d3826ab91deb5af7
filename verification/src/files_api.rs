//! What file browsing, download and preview decide.
//!
//! Every path reaching the filesystem has come back from
//! [`crate::files::path::resolve`], which follows every link and then verifies
//! containment. That is the boundary, and it is one function rather than a
//! convention.
//!
//! Thumbnails are made by tools already installed on the host (`vips`, `ffmpeg`,
//! `pdftoppm`) rather than by image codecs in the daemon: Prism orchestrates a
//! pipeline, it does not reimplement one.

use crate::api;
use crate::api::{Refused, RefusedView};
use crate::auth;
use crate::auth::{Authenticator, Sensitivity};
use crate::files::list;
use crate::files::list::{Kind, Sort};
use crate::files::path::PathError;
use crate::term_api;
use crate::text;
use vstd::prelude::*;

verus! {

/// How a request for files is refused, if it is.
pub open spec fn guarded(roots: nat, denied: Option<RefusedView>) -> Option<RefusedView> {
    if roots == 0 {
        Some(
            RefusedView {
                status: 403,
                error: "files_disabled"@,
                detail: "no file roots are configured"@,
            },
        )
    } else {
        denied
    }
}

/// How a request for files is refused, if it is: reading the filesystem is the
/// most sensitive read Prism offers.
pub fn guard(
    roots: usize,
    auth: &Authenticator,
    authorization: Option<&str>,
    cookies: Option<&str>,
    now: u64,
) -> (r: Option<Refused>)
    ensures
        api::refused(r) == guarded(
            roots as nat,
            api::denied(
                auth::authorized(
                    auth.key(),
                    auth@,
                    api::token_of(authorization, cookies),
                    Sensitivity::Session,
                    now,
                ),
            ),
        ),
{
    if roots == 0 {
        return Some(
            Refused {
                status: 403,
                error: "files_disabled",
                detail: "no file roots are configured".to_string(),
            },
        );
    }
    api::require(auth, authorization, cookies, Sensitivity::Session, now)
}

/// How a path that cannot be served is refused.
pub open spec fn unserved(e: PathError) -> RefusedView {
    RefusedView {
        status: 404,
        error: if e == PathError::UnknownRoot {
            "no_root"@
        } else {
            "not_found"@
        },
        detail: e.message(),
    }
}

/// How a path that cannot be served is refused.
pub fn path_refusal(e: PathError) -> (r: Refused)
    ensures
        r@ == unserved(e),
{
    let error = match e {
        PathError::UnknownRoot => "no_root",
        _ => "not_found",
    };
    Refused { status: 404, error, detail: e.public_message().to_string() }
}

/// How a listing is sorted, by name unless it says otherwise.
pub fn sort_from(sort: Option<&str>) -> (r: Sort)
    ensures
        r == (match sort {
            Some(s) => if s@ == "size"@ {
                Sort::Size
            } else if s@ == "modified"@ {
                Sort::Modified
            } else {
                Sort::Name
            },
            None => Sort::Name,
        }),
{
    match sort {
        Some(s) => if text::same(s, "size") {
            Sort::Size
        } else if text::same(s, "modified") {
            Sort::Modified
        } else {
            Sort::Name
        },
        None => Sort::Name,
    }
}

/// How many entries a page holds: capped so that a client cannot ask for a page
/// of a hundred thousand and force the server to look at each.
pub fn page_limit(limit: Option<usize>) -> (r: usize)
    ensures
        r == (match limit {
            Some(n) => if n < 1 {
                1
            } else if n > 1000 {
                1000
            } else {
                n
            },
            None => 200,
        }),
        1 <= r <= 1000,
{
    match limit {
        Some(n) => if n < 1 {
            1
        } else if n > 1000 {
            1000
        } else {
            n
        },
        None => 200,
    }
}

/// The last name along a path, or `file` where there is none.
pub open spec fn last_name(path: Seq<char>) -> Seq<char> {
    let name = match text::rsplit_once(path, '/') {
        Some((_, n)) => n,
        None => path,
    };
    if name.len() == 0 {
        "file"@
    } else {
        name
    }
}

/// The last name along a path, or `file` where there is none.
pub fn file_name(path: &str) -> (r: String)
    ensures
        r@ == last_name(path@),
{
    let name = match text::split_last(path, '/') {
        Some((_, n)) => n,
        None => path.to_string(),
    };
    if name.as_str().is_empty() {
        "file".to_string()
    } else {
        name
    }
}

/// A download is saved under its name, from which quotes are taken.
pub open spec fn attachment(name: Seq<char>) -> Seq<char> {
    "attachment; filename=\""@ + text::replace(name, "\""@, ""@) + "\""@
}

/// What has a browser save a file rather than show it.
pub fn disposition(name: &str) -> (r: String)
    ensures
        r@ == attachment(name@),
{
    proof {
        reveal_strlit("\"");
    }
    let mut out = "attachment; filename=\"".to_string();
    out.append(text::replace_all(name, "\"", "").as_str());
    out.append("\"");
    out
}

/// The names that are shown as text.
pub open spec fn plain_extensions() -> Seq<Seq<char>> {
    seq![
        "md"@,
        "txt"@,
        "log"@,
        "conf"@,
        "toml"@,
        "yaml"@,
        "yml"@,
        "csv"@,
        "rs"@,
        "py"@,
        "js"@,
        "ts"@,
        "sh"@,
        "c"@,
        "h"@,
        "cpp"@,
        "go"@,
        "lua"@,
        "html"@,
        "css"@,
        "xml"@,
    ]
}

/// The content type that an extension stands for.
pub open spec fn mime_of(ext: Seq<char>) -> Seq<char> {
    if ext == "png"@ {
        "image/png"@
    } else if ext == "jpg"@ || ext == "jpeg"@ {
        "image/jpeg"@
    } else if ext == "gif"@ {
        "image/gif"@
    } else if ext == "webp"@ {
        "image/webp"@
    } else if ext == "avif"@ {
        "image/avif"@
    } else if ext == "svg"@ {
        "image/svg+xml"@
    } else if ext == "mp4"@ || ext == "m4v"@ {
        "video/mp4"@
    } else if ext == "webm"@ {
        "video/webm"@
    } else if ext == "mkv"@ {
        "video/x-matroska"@
    } else if ext == "mp3"@ {
        "audio/mpeg"@
    } else if ext == "flac"@ {
        "audio/flac"@
    } else if ext == "wav"@ {
        "audio/wav"@
    } else if ext == "ogg"@ || ext == "opus"@ {
        "audio/ogg"@
    } else if ext == "pdf"@ {
        "application/pdf"@
    } else if ext == "json"@ {
        "application/json"@
    } else if plain_extensions().contains(ext) {
        "text/plain; charset=utf-8"@
    } else {
        "application/octet-stream"@
    }
}

/// The content type of a file, by its name.
pub fn mime_for(name: &str) -> (r: &'static str)
    ensures
        r@ == mime_of(list::extension(name@)),
{
    let ext = list::extension_of(name);
    let e = ext.as_str();
    let plain = [
        "md",
        "txt",
        "log",
        "conf",
        "toml",
        "yaml",
        "yml",
        "csv",
        "rs",
        "py",
        "js",
        "ts",
        "sh",
        "c",
        "h",
        "cpp",
        "go",
        "lua",
        "html",
        "css",
        "xml",
    ];
    assert(text::lits(plain@) =~= plain_extensions());
    if text::same(e, "png") {
        "image/png"
    } else if text::same(e, "jpg") || text::same(e, "jpeg") {
        "image/jpeg"
    } else if text::same(e, "gif") {
        "image/gif"
    } else if text::same(e, "webp") {
        "image/webp"
    } else if text::same(e, "avif") {
        "image/avif"
    } else if text::same(e, "svg") {
        "image/svg+xml"
    } else if text::same(e, "mp4") || text::same(e, "m4v") {
        "video/mp4"
    } else if text::same(e, "webm") {
        "video/webm"
    } else if text::same(e, "mkv") {
        "video/x-matroska"
    } else if text::same(e, "mp3") {
        "audio/mpeg"
    } else if text::same(e, "flac") {
        "audio/flac"
    } else if text::same(e, "wav") {
        "audio/wav"
    } else if text::same(e, "ogg") || text::same(e, "opus") {
        "audio/ogg"
    } else if text::same(e, "pdf") {
        "application/pdf"
    } else if text::same(e, "json") {
        "application/json"
    } else if text::among(e, plain.as_slice()) {
        "text/plain; charset=utf-8"
    } else {
        "application/octet-stream"
    }
}

// ---------------------------------------------------------------------------
// Thumbnails
// ---------------------------------------------------------------------------

/// Thumbnails are suspended at Red and above: spawning image and video decoders
/// on a machine that is already short of memory is precisely the wrong thing to
/// do, and the interface degrades to an icon.
pub fn thumbs_suspended(tier: &str) -> (r: Option<Refused>)
    ensures
        api::refused(r) == (if term_api::calm(tier@) {
            None
        } else {
            Some(
                RefusedView {
                    status: 503,
                    error: "degraded"@,
                    detail: "thumbnails are suspended while the machine is under pressure"@,
                },
            )
        }),
{
    if term_api::tier_allows_new_session(tier) {
        None
    } else {
        Some(
            Refused {
                status: 503,
                error: "degraded",
                detail: "thumbnails are suspended while the machine is under pressure".to_string(),
            },
        )
    }
}

pub open spec fn zeros(n: nat) -> Seq<char> {
    Seq::new(n, |i: int| '0')
}

/// A number in hexadecimal, with zeros before it up to sixteen digits.
pub open spec fn sixteen(n: u64) -> Seq<char> {
    let h = text::hex(n as nat);
    if h.len() < 16 {
        zeros((16 - h.len()) as nat) + h
    } else {
        h
    }
}

/// The name that a thumbnail is kept under, from a number that stands for the
/// file, its time and its size: an edited file is then another.
pub fn thumb_name(key: u64) -> (r: String)
    ensures
        r@ == sixteen(key) + ".jpg"@,
{
    let mut h = String::new();
    text::push_hex(&mut h, key);
    assert(h@ =~= text::hex(key as nat));
    let v = text::chars_of(h.as_str());
    let mut out = String::new();
    let mut i: usize = v.len();
    assert(out@ =~= zeros(0));
    while i < 16
        invariant
            v.len() <= i <= 16 || i == v.len(),
            out@ == zeros((i - v.len()) as nat),
        decreases 16 - i,
    {
        out.push('0');
        i += 1;
        assert(out@ =~= zeros((i - v.len()) as nat));
    }
    out.append(h.as_str());
    assert(out@ =~= sixteen(key));
    out.append(".jpg");
    out
}

/// `s` without `.jpg` at its end, however often it stands there.
pub open spec fn stem_of(s: Seq<char>) -> Seq<char>
    decreases s.len(),
{
    if s.len() >= 4 && text::ends(s, ".jpg"@) {
        stem_of(s.take(s.len() - 4))
    } else {
        s
    }
}

fn stem(s: &str) -> (r: String)
    ensures
        r@ == stem_of(s@),
{
    proof {
        reveal_strlit(".jpg");
    }
    let mut rest = s.to_string();
    loop
        invariant
            stem_of(rest@) == stem_of(s@),
            ".jpg"@.len() == 4,
        ensures
            rest@ == stem_of(s@),
        decreases rest@.len(),
    {
        let ghost before = rest@;
        match text::strip_suffix(rest.as_str(), ".jpg") {
            Some(t) => {
                assert(before.take(before.len() - 4) == t@);
                rest = t;
            },
            None => {
                break;
            },
        }
    }
    rest
}

/// How a thumbnail is made.
#[derive(Debug)]
pub struct ThumbPlan {
    pub program: &'static str,
    pub args: Vec<String>,
    /// What the program may have written instead of what it was asked for: the
    /// first of these that is there is what is wanted.
    pub produced: Vec<String>,
}

pub struct PlanView {
    pub program: Seq<char>,
    pub args: Seq<Seq<char>>,
    pub produced: Seq<Seq<char>>,
}

impl View for ThumbPlan {
    type V = PlanView;

    open spec fn view(&self) -> PlanView {
        PlanView {
            program: self.program@,
            args: text::strs(self.args@),
            produced: text::strs(self.produced@),
        }
    }
}

/// How a thumbnail of a kind of file is made, where it can be.
pub open spec fn planned(kind: Kind, src: Seq<char>, out: Seq<char>) -> Option<PlanView> {
    match kind {
        Kind::Image => Some(
            PlanView {
                program: "vips"@,
                args: seq!["thumbnail"@, src, out + "[Q=82]"@, "512"@],
                produced: seq![],
            },
        ),
        Kind::Video => Some(
            PlanView {
                program: "ffmpeg"@,
                args: seq![
                    "-ss"@,
                    "00:00:03"@,
                    "-i"@,
                    src,
                    "-frames:v"@,
                    "1"@,
                    "-vf"@,
                    "scale=512:-1"@,
                    "-y"@,
                    "-loglevel"@,
                    "error"@,
                    out,
                ],
                produced: seq![],
            },
        ),
        Kind::Pdf => Some(
            PlanView {
                program: "pdftoppm"@,
                args: seq![
                    "-jpeg"@,
                    "-f"@,
                    "1"@,
                    "-l"@,
                    "1"@,
                    "-scale-to"@,
                    "512"@,
                    src,
                    stem_of(out),
                ],
                produced: seq![
                    stem_of(out) + "-1.jpg"@,
                    stem_of(out) + "-01.jpg"@,
                    stem_of(out) + "-001.jpg"@,
                ],
            },
        ),
        _ => None,
    }
}

fn page_file(stem: &str, suffix: &str) -> (r: String)
    ensures
        r@ == stem@ + suffix@,
{
    let mut p = stem.to_string();
    p.append(suffix);
    p
}

/// How a thumbnail of a kind of file is made, where it can be.
pub fn plan_for(kind: Kind, src: &str, out: &str) -> (r: Option<ThumbPlan>)
    ensures
        match r {
            Some(p) => planned(kind, src@, out@) == Some(p@),
            None => planned(kind, src@, out@) is None,
        },
{
    let mut args: Vec<String> = Vec::new();
    let mut produced: Vec<String> = Vec::new();
    match kind {
        Kind::Image => {
            args.push("thumbnail".to_string());
            args.push(src.to_string());
            args.push(page_file(out, "[Q=82]"));
            args.push("512".to_string());
            let p = ThumbPlan { program: "vips", args, produced };
            assert(p@.args =~= planned(kind, src@, out@)->0.args);
            assert(p@.produced =~= seq![]);
            Some(p)
        },
        Kind::Video => {
            // Seek *before* decoding: `-ss` ahead of `-i` means ffmpeg jumps to
            // the keyframe rather than decoding from the start.
            args.push("-ss".to_string());
            args.push("00:00:03".to_string());
            args.push("-i".to_string());
            args.push(src.to_string());
            args.push("-frames:v".to_string());
            args.push("1".to_string());
            args.push("-vf".to_string());
            args.push("scale=512:-1".to_string());
            args.push("-y".to_string());
            args.push("-loglevel".to_string());
            args.push("error".to_string());
            args.push(out.to_string());
            let p = ThumbPlan { program: "ffmpeg", args, produced };
            assert(p@.args =~= planned(kind, src@, out@)->0.args);
            assert(p@.produced =~= seq![]);
            Some(p)
        },
        Kind::Pdf => {
            let stem = stem(out);
            args.push("-jpeg".to_string());
            args.push("-f".to_string());
            args.push("1".to_string());
            args.push("-l".to_string());
            args.push("1".to_string());
            args.push("-scale-to".to_string());
            args.push("512".to_string());
            args.push(src.to_string());
            // The program appends a page suffix.
            produced.push(page_file(stem.as_str(), "-1.jpg"));
            produced.push(page_file(stem.as_str(), "-01.jpg"));
            produced.push(page_file(stem.as_str(), "-001.jpg"));
            args.push(stem);
            let p = ThumbPlan { program: "pdftoppm", args, produced };
            assert(p@.args =~= planned(kind, src@, out@)->0.args);
            assert(p@.produced =~= planned(kind, src@, out@)->0.produced);
            Some(p)
        },
        _ => None,
    }
}

/// How a thumbnail of a file is made, where it can be.
pub fn thumb_plan(name: &str, src: &str, out: &str) -> (r: Option<ThumbPlan>)
    ensures
        match r {
            Some(p) => planned(
                list::kind_of(list::extension(list::lowercase(name@))),
                src@,
                out@,
            ) == Some(p@),
            None => planned(
                list::kind_of(list::extension(list::lowercase(name@))),
                src@,
                out@,
            ) is None,
        },
{
    let lowered = list::to_lowercase(name);
    plan_for(Kind::from_extension(lowered.as_str()), src, out)
}

// ---------------------------------------------------------------------------
// Laws
// ---------------------------------------------------------------------------

/// What lies outside a root and what does not exist are answered alike, so that
/// no answer tells one from the other.
pub proof fn outside_and_absent_are_answered_alike()
    ensures
        unserved(PathError::Escapes) == unserved(PathError::NotFound),
{
}

/// There is a thumbnail exactly of what can have one.
pub proof fn thumbnails_are_of_what_can_have_one(kind: Kind, src: Seq<char>, out: Seq<char>)
    ensures
        planned(kind, src, out) is Some <==> (kind == Kind::Image || kind == Kind::Video || kind
            == Kind::Pdf),
{
}

/// A name under which a file is saved holds no quote, so that it ends where it
/// is meant to.
pub proof fn no_quote_in_a_saved_name(name: Seq<char>)
    ensures
        !text::replace(name, "\""@, ""@).contains('"'),
    decreases name.len(),
{
    reveal_strlit("\"");
    reveal_strlit("");
    let p = "\""@;
    text::lemma_find(name, p);
    match text::find(name, p) {
        Some(i) => {
            let rest = name.skip(i + 1);
            no_quote_in_a_saved_name(rest);
            let r = text::replace(name, p, ""@);
            assert(r =~= name.take(i) + text::replace(rest, p, ""@));
            assert forall|j: int| 0 <= j < r.len() implies r[j] != '"' by {
                if j < i {
                    if name[j] == '"' {
                        assert(name.subrange(j, j + 1) =~= p);
                        assert(text::at(name, p, j));
                    }
                } else {
                    assert(r[j] == text::replace(rest, p, ""@)[j - i]);
                }
            }
        },
        None => {
            assert forall|j: int| 0 <= j < name.len() implies name[j] != '"' by {
                if name[j] == '"' {
                    assert(name.subrange(j, j + 1) =~= p);
                    assert(text::at(name, p, j));
                }
            }
        },
    }
}

/// What a file is served as, by its extension: what a browser shows goes out as
/// what it is, anything that is text as plain text, so that nothing in it is run,
/// and all else as bytes.
pub proof fn a_file_is_served_as_what_it_is(ext: Seq<char>)
    ensures
        ext == "png"@ ==> mime_of(ext) == "image/png"@,
        ext == "jpg"@ ==> mime_of(ext) == "image/jpeg"@,
        ext == "jpeg"@ ==> mime_of(ext) == "image/jpeg"@,
        ext == "gif"@ ==> mime_of(ext) == "image/gif"@,
        ext == "webp"@ ==> mime_of(ext) == "image/webp"@,
        ext == "avif"@ ==> mime_of(ext) == "image/avif"@,
        ext == "svg"@ ==> mime_of(ext) == "image/svg+xml"@,
        ext == "mp4"@ ==> mime_of(ext) == "video/mp4"@,
        ext == "m4v"@ ==> mime_of(ext) == "video/mp4"@,
        ext == "webm"@ ==> mime_of(ext) == "video/webm"@,
        ext == "mkv"@ ==> mime_of(ext) == "video/x-matroska"@,
        ext == "mp3"@ ==> mime_of(ext) == "audio/mpeg"@,
        ext == "flac"@ ==> mime_of(ext) == "audio/flac"@,
        ext == "wav"@ ==> mime_of(ext) == "audio/wav"@,
        ext == "ogg"@ ==> mime_of(ext) == "audio/ogg"@,
        ext == "opus"@ ==> mime_of(ext) == "audio/ogg"@,
        ext == "pdf"@ ==> mime_of(ext) == "application/pdf"@,
        ext == "json"@ ==> mime_of(ext) == "application/json"@,
        ({
            ||| ext == "md"@
            ||| ext == "txt"@
            ||| ext == "log"@
            ||| ext == "conf"@
            ||| ext == "toml"@
            ||| ext == "yaml"@
            ||| ext == "yml"@
            ||| ext == "csv"@
            ||| ext == "rs"@
            ||| ext == "py"@
            ||| ext == "js"@
            ||| ext == "ts"@
            ||| ext == "sh"@
            ||| ext == "c"@
            ||| ext == "h"@
            ||| ext == "cpp"@
            ||| ext == "go"@
            ||| ext == "lua"@
            ||| ext == "html"@
            ||| ext == "css"@
            ||| ext == "xml"@
        }) ==> mime_of(ext) == "text/plain; charset=utf-8"@,
        ({
            &&& ext != "png"@
            &&& ext != "jpg"@
            &&& ext != "jpeg"@
            &&& ext != "gif"@
            &&& ext != "webp"@
            &&& ext != "avif"@
            &&& ext != "svg"@
            &&& ext != "mp4"@
            &&& ext != "m4v"@
            &&& ext != "webm"@
            &&& ext != "mkv"@
            &&& ext != "mp3"@
            &&& ext != "flac"@
            &&& ext != "wav"@
            &&& ext != "ogg"@
            &&& ext != "opus"@
            &&& ext != "pdf"@
            &&& ext != "json"@
            &&& ext != "md"@
            &&& ext != "txt"@
            &&& ext != "log"@
            &&& ext != "conf"@
            &&& ext != "toml"@
            &&& ext != "yaml"@
            &&& ext != "yml"@
            &&& ext != "csv"@
            &&& ext != "rs"@
            &&& ext != "py"@
            &&& ext != "js"@
            &&& ext != "ts"@
            &&& ext != "sh"@
            &&& ext != "c"@
            &&& ext != "h"@
            &&& ext != "cpp"@
            &&& ext != "go"@
            &&& ext != "lua"@
            &&& ext != "html"@
            &&& ext != "css"@
            &&& ext != "xml"@
        }) ==> mime_of(ext) == "application/octet-stream"@,
{
    reveal_strlit("png");
    assert("png"@.len() == 3 && "png"@[0] == 'p' && "png"@[1] == 'n' && "png"@[2] == 'g');
    reveal_strlit("jpg");
    assert("jpg"@.len() == 3 && "jpg"@[0] == 'j' && "jpg"@[1] == 'p' && "jpg"@[2] == 'g');
    reveal_strlit("jpeg");
    assert("jpeg"@.len() == 4 && "jpeg"@[0] == 'j' && "jpeg"@[1] == 'p' && "jpeg"@[2] == 'e' && "jpeg"@[3] == 'g');
    reveal_strlit("gif");
    assert("gif"@.len() == 3 && "gif"@[0] == 'g' && "gif"@[1] == 'i' && "gif"@[2] == 'f');
    reveal_strlit("webp");
    assert("webp"@.len() == 4 && "webp"@[0] == 'w' && "webp"@[1] == 'e' && "webp"@[2] == 'b' && "webp"@[3] == 'p');
    reveal_strlit("avif");
    assert("avif"@.len() == 4 && "avif"@[0] == 'a' && "avif"@[1] == 'v' && "avif"@[2] == 'i' && "avif"@[3] == 'f');
    reveal_strlit("svg");
    assert("svg"@.len() == 3 && "svg"@[0] == 's' && "svg"@[1] == 'v' && "svg"@[2] == 'g');
    reveal_strlit("mp4");
    assert("mp4"@.len() == 3 && "mp4"@[0] == 'm' && "mp4"@[1] == 'p' && "mp4"@[2] == '4');
    reveal_strlit("m4v");
    assert("m4v"@.len() == 3 && "m4v"@[0] == 'm' && "m4v"@[1] == '4' && "m4v"@[2] == 'v');
    reveal_strlit("webm");
    assert("webm"@.len() == 4 && "webm"@[0] == 'w' && "webm"@[1] == 'e' && "webm"@[2] == 'b' && "webm"@[3] == 'm');
    reveal_strlit("mkv");
    assert("mkv"@.len() == 3 && "mkv"@[0] == 'm' && "mkv"@[1] == 'k' && "mkv"@[2] == 'v');
    reveal_strlit("mp3");
    assert("mp3"@.len() == 3 && "mp3"@[0] == 'm' && "mp3"@[1] == 'p' && "mp3"@[2] == '3');
    reveal_strlit("flac");
    assert("flac"@.len() == 4 && "flac"@[0] == 'f' && "flac"@[1] == 'l' && "flac"@[2] == 'a' && "flac"@[3] == 'c');
    reveal_strlit("wav");
    assert("wav"@.len() == 3 && "wav"@[0] == 'w' && "wav"@[1] == 'a' && "wav"@[2] == 'v');
    reveal_strlit("ogg");
    assert("ogg"@.len() == 3 && "ogg"@[0] == 'o' && "ogg"@[1] == 'g' && "ogg"@[2] == 'g');
    reveal_strlit("opus");
    assert("opus"@.len() == 4 && "opus"@[0] == 'o' && "opus"@[1] == 'p' && "opus"@[2] == 'u' && "opus"@[3] == 's');
    reveal_strlit("pdf");
    assert("pdf"@.len() == 3 && "pdf"@[0] == 'p' && "pdf"@[1] == 'd' && "pdf"@[2] == 'f');
    reveal_strlit("json");
    assert("json"@.len() == 4 && "json"@[0] == 'j' && "json"@[1] == 's' && "json"@[2] == 'o' && "json"@[3] == 'n');
    reveal_strlit("md");
    assert("md"@.len() == 2 && "md"@[0] == 'm' && "md"@[1] == 'd');
    reveal_strlit("txt");
    assert("txt"@.len() == 3 && "txt"@[0] == 't' && "txt"@[1] == 'x' && "txt"@[2] == 't');
    reveal_strlit("log");
    assert("log"@.len() == 3 && "log"@[0] == 'l' && "log"@[1] == 'o' && "log"@[2] == 'g');
    reveal_strlit("conf");
    assert("conf"@.len() == 4 && "conf"@[0] == 'c' && "conf"@[1] == 'o' && "conf"@[2] == 'n' && "conf"@[3] == 'f');
    reveal_strlit("toml");
    assert("toml"@.len() == 4 && "toml"@[0] == 't' && "toml"@[1] == 'o' && "toml"@[2] == 'm' && "toml"@[3] == 'l');
    reveal_strlit("yaml");
    assert("yaml"@.len() == 4 && "yaml"@[0] == 'y' && "yaml"@[1] == 'a' && "yaml"@[2] == 'm' && "yaml"@[3] == 'l');
    reveal_strlit("yml");
    assert("yml"@.len() == 3 && "yml"@[0] == 'y' && "yml"@[1] == 'm' && "yml"@[2] == 'l');
    reveal_strlit("csv");
    assert("csv"@.len() == 3 && "csv"@[0] == 'c' && "csv"@[1] == 's' && "csv"@[2] == 'v');
    reveal_strlit("rs");
    assert("rs"@.len() == 2 && "rs"@[0] == 'r' && "rs"@[1] == 's');
    reveal_strlit("py");
    assert("py"@.len() == 2 && "py"@[0] == 'p' && "py"@[1] == 'y');
    reveal_strlit("js");
    assert("js"@.len() == 2 && "js"@[0] == 'j' && "js"@[1] == 's');
    reveal_strlit("ts");
    assert("ts"@.len() == 2 && "ts"@[0] == 't' && "ts"@[1] == 's');
    reveal_strlit("sh");
    assert("sh"@.len() == 2 && "sh"@[0] == 's' && "sh"@[1] == 'h');
    reveal_strlit("c");
    assert("c"@.len() == 1 && "c"@[0] == 'c');
    reveal_strlit("h");
    assert("h"@.len() == 1 && "h"@[0] == 'h');
    reveal_strlit("cpp");
    assert("cpp"@.len() == 3 && "cpp"@[0] == 'c' && "cpp"@[1] == 'p' && "cpp"@[2] == 'p');
    reveal_strlit("go");
    assert("go"@.len() == 2 && "go"@[0] == 'g' && "go"@[1] == 'o');
    reveal_strlit("lua");
    assert("lua"@.len() == 3 && "lua"@[0] == 'l' && "lua"@[1] == 'u' && "lua"@[2] == 'a');
    reveal_strlit("html");
    assert("html"@.len() == 4 && "html"@[0] == 'h' && "html"@[1] == 't' && "html"@[2] == 'm' && "html"@[3] == 'l');
    reveal_strlit("css");
    assert("css"@.len() == 3 && "css"@[0] == 'c' && "css"@[1] == 's' && "css"@[2] == 's');
    reveal_strlit("xml");
    assert("xml"@.len() == 3 && "xml"@[0] == 'x' && "xml"@[1] == 'm' && "xml"@[2] == 'l');
    let l = plain_extensions();
    assert(l[0] == "md"@ && l[1] == "txt"@ && l[2] == "log"@ && l[3] == "conf"@ && l[4] == "toml"@ && l[5] == "yaml"@ && l[6] == "yml"@ && l[7] == "csv"@ && l[8] == "rs"@ && l[9] == "py"@ && l[10] == "js"@ && l[11] == "ts"@ && l[12] == "sh"@ && l[13] == "c"@ && l[14] == "h"@ && l[15] == "cpp"@ && l[16] == "go"@ && l[17] == "lua"@ && l[18] == "html"@ && l[19] == "css"@ && l[20] == "xml"@);
}

/// A name of sixteen digits: the key in hexadecimal, with zeros before it.
pub proof fn a_thumbnail_is_named_by_its_key(key: u64)
    ensures
        sixteen(key).len() == 16,
        text::hex_val(sixteen(key)) == key,
{
    let h = text::hex(key as nat);
    lemma_hex(key as nat);
    assert(sixteens(16) == 0x1_0000_0000_0000_0000) by {
        reveal_with_fuel(sixteens, 17);
    }
    lemma_hex_len(key as nat, 16);
    lemma_zeros((16 - h.len()) as nat, h);
}

proof fn lemma_zeros(n: nat, h: Seq<char>)
    ensures
        text::hex_val(zeros(n) + h) == text::hex_val(h),
    decreases h.len(),
{
    if h.len() == 0 {
        assert(zeros(n) + h =~= zeros(n));
        lemma_only_zeros(n);
    } else {
        lemma_zeros(n, h.drop_last());
        assert((zeros(n) + h).drop_last() =~= zeros(n) + h.drop_last());
    }
}

proof fn lemma_only_zeros(n: nat)
    ensures
        text::hex_val(zeros(n)) == 0,
    decreases n,
{
    if n > 0 {
        let m = (n - 1) as nat;
        lemma_only_zeros(m);
        assert(zeros(n).drop_last() =~= zeros(m));
    }
}

proof fn lemma_hex(n: nat)
    ensures
        text::hex(n).len() > 0,
        text::hex_val(text::hex(n)) == n,
    decreases n,
{
    if n < 16 {
        let h = text::hex(n);
        assert(h.drop_last() =~= Seq::<char>::empty());
        assert(text::hex_val(h.drop_last()) == 0);
    } else {
        lemma_hex(n / 16);
        assert(text::hex(n).drop_last() =~= text::hex(n / 16));
    }
}

/// The numbers that so many hexadecimal digits can write.
spec fn sixteens(k: nat) -> nat
    decreases k,
{
    if k == 0 {
        1
    } else {
        16 * sixteens((k - 1) as nat)
    }
}

proof fn lemma_hex_len(n: nat, k: nat)
    requires
        k > 0,
        n < sixteens(k),
    ensures
        text::hex(n).len() <= k,
    decreases k,
{
    if n >= 16 {
        let m = (k - 1) as nat;
        if m == 0 {
            assert(sixteens(0) == 1);
        }
        lemma_hex_len(n / 16, m);
    }
}

/// How a thumbnail is made: a picture is scaled, a film is stopped three seconds
/// in, and of a document the first page is drawn, each 512 points wide.
pub proof fn how_a_thumbnail_is_made(src: Seq<char>, out: Seq<char>, stem: Seq<char>)
    requires
        out == stem + ".jpg"@,
        !text::ends(stem, ".jpg"@),
    ensures
        planned(Kind::Image, src, out) == Some(
            (PlanView {
                program: "vips"@,
                args: seq!["thumbnail"@, src, out + "[Q=82]"@, "512"@],
                produced: seq![],
            }),
        ),
        planned(Kind::Video, src, out) == Some(
            (PlanView {
                program: "ffmpeg"@,
                args: seq![
                    "-ss"@,
                    "00:00:03"@,
                    "-i"@,
                    src,
                    "-frames:v"@,
                    "1"@,
                    "-vf"@,
                    "scale=512:-1"@,
                    "-y"@,
                    "-loglevel"@,
                    "error"@,
                    out,
                ],
                produced: seq![],
            }),
        ),
        planned(Kind::Pdf, src, out) == Some(
            (PlanView {
                program: "pdftoppm"@,
                args: seq![
                    "-jpeg"@,
                    "-f"@,
                    "1"@,
                    "-l"@,
                    "1"@,
                    "-scale-to"@,
                    "512"@,
                    src,
                    stem,
                ],
                produced: seq![stem + "-1.jpg"@, stem + "-01.jpg"@, stem + "-001.jpg"@],
            }),
        ),
{
    reveal_strlit(".jpg");
    assert(out.subrange(out.len() - 4, out.len() as int) =~= ".jpg"@);
    assert(out.take(out.len() - 4) =~= stem);
    assert(stem_of(stem) == stem);
}

/// A file that is saved keeps its name, but for quotation marks.
pub proof fn a_saved_file_keeps_its_name(name: Seq<char>, a: Seq<char>, b: Seq<char>)
    requires
        !name.contains('"'),
        !a.contains('"'),
        !b.contains('"'),
    ensures
        attachment(name) == "attachment; filename=\""@ + name + "\""@,
        attachment(a + "\""@ + b) == "attachment; filename=\""@ + (a + b) + "\""@,
{
    reveal_strlit("\"");
    reveal_strlit("");
    lemma_unquoted(name);
    lemma_unquoted(b);
    let s = a + "\""@ + b;
    let n = a.len() as int;
    assert(s.subrange(n, n + 1) =~= "\""@);
    assert forall|j: int| 0 <= j < n implies !text::at(s, "\""@, j) by {
        if text::at(s, "\""@, j) {
            assert(s.subrange(j, j + 1)[0] == '"');
            assert(a[j] == '"');
        }
    }
    text::lemma_find_is(s, "\""@, n);
    assert(s.take(n) =~= a);
    assert(s.skip(n + 1) =~= b);
    assert(a + ""@ + b =~= a + b);
}

proof fn lemma_unquoted(s: Seq<char>)
    requires
        !s.contains('"'),
    ensures
        text::replace(s, "\""@, ""@) == s,
{
    reveal_strlit("\"");
    text::lemma_find(s, "\""@);
    if let Some(i) = text::find(s, "\""@) {
        assert(s.subrange(i, i + 1)[0] == '"');
        assert(s[i] == '"');
    }
}

/// What a path is called is what follows its last slash.
pub proof fn a_file_is_called_by_its_last_name(dir: Seq<char>, name: Seq<char>)
    requires
        !name.contains('/'),
    ensures
        name.len() > 0 ==> last_name(dir + "/"@ + name) == name && last_name(name) == name,
        name.len() == 0 ==> last_name(dir + "/"@ + name) == "file"@,
{
    reveal_strlit("/");
    let s = dir + "/"@ + name;
    let n = dir.len() as int;
    assert(s[n] == '/');
    assert forall|j: int| n < j < s.len() implies s[j] != '/' by {
        assert(s[j] == name[j - n - 1]);
        assert(name.contains(name[j - n - 1]));
    }
    text::lemma_rpos_is(s, '/', n);
    assert(s.skip(n + 1) =~= name);
    text::lemma_rpos(name, '/');
    let k = text::rpos(name, '/');
    if k >= 0 {
        assert(name.contains(name[k]));
    }
}

/// What is not there, what lies outside and what is in no known root are all
/// answered as not found; only that a root is not known is told apart.
pub proof fn nothing_outside_is_told(e: PathError)
    ensures
        unserved(e).status == 404,
        unserved(e).error == (if e == PathError::UnknownRoot {
            "no_root"@
        } else {
            "not_found"@
        }),
{
}

/// Without a root there are no files to ask for, signed in or not.
pub proof fn without_roots_files_are_off(roots: nat, denied: Option<RefusedView>)
    requires
        roots > 0,
    ensures
        guarded(0, denied) matches Some(r) && r.status == 403 && r.error == "files_disabled"@,
        guarded(roots, denied) == denied,
{
}

} // verus!

//! Directory listing.
//!
//! The performance rule is that listing must not be N+1. A models directory
//! with 100k entries is normal here, and calling `stat` on every one to render a
//! page of fifty is the difference between instant and unusable.
//!
//! So the scan reads names and types, sorts on that cheap information, and calls
//! `stat` **only on the slice actually being returned**: [`needed`] says which.
//!
//! Sorting by size or modification time is the exception: those fields do not
//! exist until something is stat'd, so that ordering necessarily pays for the
//! whole directory. The cost is explicit in [`Sort::requires_full_stat`] rather
//! than hidden, so a caller can decide whether to offer it.

use crate::order;
use crate::text;
use vstd::prelude::*;

verus! {

/// Coarse category, inferred from the extension alone.
///
/// Deliberately not content sniffing: opening every file in a directory to read
/// magic bytes is exactly the N+1 this module exists to avoid. The UI uses this
/// to pick an icon and to decide whether a thumbnail is even worth requesting.
#[derive(Debug, Clone, Copy, PartialEq, Eq, Structural)]
pub enum Kind {
    Dir,
    Image,
    Video,
    Audio,
    Text,
    Pdf,
    Archive,
    Other,
}

/// What follows the last dot of a name, in lower case; empty where there is no
/// dot.
pub open spec fn extension(name: Seq<char>) -> Seq<char> {
    match text::rsplit_once(name, '.') {
        Some((_, e)) => text::lower(e),
        None => seq![],
    }
}

pub open spec fn image_extensions() -> Seq<Seq<char>> {
    seq![
        "jpg"@,
        "jpeg"@,
        "png"@,
        "gif"@,
        "webp"@,
        "avif"@,
        "bmp"@,
        "tif"@,
        "tiff"@,
        "heic"@,
        "svg"@,
    ]
}

pub open spec fn video_extensions() -> Seq<Seq<char>> {
    seq![
        "mp4"@,
        "mkv"@,
        "webm"@,
        "mov"@,
        "avi"@,
        "m4v"@,
        "wmv"@,
        "flv"@,
        "mpg"@,
        "mpeg"@,
    ]
}

pub open spec fn audio_extensions() -> Seq<Seq<char>> {
    seq!["mp3"@, "flac"@, "wav"@, "ogg"@, "opus"@, "m4a"@, "aac"@, "wma"@]
}

pub open spec fn text_extensions() -> Seq<Seq<char>> {
    seq![
        "txt"@,
        "md"@,
        "rs"@,
        "py"@,
        "js"@,
        "ts"@,
        "json"@,
        "toml"@,
        "yaml"@,
        "yml"@,
        "html"@,
        "css"@,
        "sh"@,
        "c"@,
        "h"@,
        "cpp"@,
        "go"@,
        "lua"@,
        "conf"@,
        "log"@,
        "csv"@,
        "xml"@,
    ]
}

pub open spec fn archive_extensions() -> Seq<Seq<char>> {
    seq!["zip"@, "tar"@, "gz"@, "xz"@, "zst"@, "bz2"@, "7z"@, "rar"@]
}

/// The kind that an extension stands for.
pub open spec fn kind_of(ext: Seq<char>) -> Kind {
    if image_extensions().contains(ext) {
        Kind::Image
    } else if video_extensions().contains(ext) {
        Kind::Video
    } else if audio_extensions().contains(ext) {
        Kind::Audio
    } else if text_extensions().contains(ext) {
        Kind::Text
    } else if ext == "pdf"@ {
        Kind::Pdf
    } else if archive_extensions().contains(ext) {
        Kind::Archive
    } else {
        Kind::Other
    }
}

/// The extension of a name.
pub fn extension_of(name: &str) -> (r: String)
    ensures
        r@ == extension(name@),
{
    match text::split_last(name, '.') {
        Some((_, e)) => {
            let v = text::chars_of(e.as_str());
            let l = text::lower_chars(v.as_slice());
            text::string_of(l.as_slice())
        },
        None => String::new(),
    }
}

impl Kind {
    pub fn from_extension(name: &str) -> (r: Self)
        ensures
            r == kind_of(extension(name@)),
    {
        let ext = extension_of(name);
        let e = ext.as_str();
        let images = [
            "jpg",
            "jpeg",
            "png",
            "gif",
            "webp",
            "avif",
            "bmp",
            "tif",
            "tiff",
            "heic",
            "svg",
        ];
        assert(text::lits(images@) =~= image_extensions());
        if text::among(e, images.as_slice()) {
            return Kind::Image;
        }
        let videos = [
            "mp4",
            "mkv",
            "webm",
            "mov",
            "avi",
            "m4v",
            "wmv",
            "flv",
            "mpg",
            "mpeg",
        ];
        assert(text::lits(videos@) =~= video_extensions());
        if text::among(e, videos.as_slice()) {
            return Kind::Video;
        }
        let audio = ["mp3", "flac", "wav", "ogg", "opus", "m4a", "aac", "wma"];
        assert(text::lits(audio@) =~= audio_extensions());
        if text::among(e, audio.as_slice()) {
            return Kind::Audio;
        }
        let texts = [
            "txt",
            "md",
            "rs",
            "py",
            "js",
            "ts",
            "json",
            "toml",
            "yaml",
            "yml",
            "html",
            "css",
            "sh",
            "c",
            "h",
            "cpp",
            "go",
            "lua",
            "conf",
            "log",
            "csv",
            "xml",
        ];
        assert(text::lits(texts@) =~= text_extensions());
        if text::among(e, texts.as_slice()) {
            return Kind::Text;
        }
        if text::same(e, "pdf") {
            return Kind::Pdf;
        }
        let archives = ["zip", "tar", "gz", "xz", "zst", "bz2", "7z", "rar"];
        assert(text::lits(archives@) =~= archive_extensions());
        if text::among(e, archives.as_slice()) {
            return Kind::Archive;
        }
        Kind::Other
    }

    /// Whether a thumbnail could be produced. Saves the UI requesting one for a
    /// file that could never have it.
    pub fn thumbnailable(&self) -> (r: bool)
        ensures
            r == (*self is Image || *self is Video || *self is Pdf),
    {
        match self {
            Kind::Image | Kind::Video | Kind::Pdf => true,
            _ => false,
        }
    }

    pub open spec fn word(self) -> Seq<char> {
        match self {
            Kind::Dir => "dir"@,
            Kind::Image => "image"@,
            Kind::Video => "video"@,
            Kind::Audio => "audio"@,
            Kind::Text => "text"@,
            Kind::Pdf => "pdf"@,
            Kind::Archive => "archive"@,
            Kind::Other => "other"@,
        }
    }

    /// The word for a kind, as the API writes it.
    pub fn as_str(&self) -> (r: &'static str)
        ensures
            r@ == self.word(),
    {
        match self {
            Kind::Dir => "dir",
            Kind::Image => "image",
            Kind::Video => "video",
            Kind::Audio => "audio",
            Kind::Text => "text",
            Kind::Pdf => "pdf",
            Kind::Archive => "archive",
            Kind::Other => "other",
        }
    }
}

#[derive(Debug)]
pub struct Entry {
    pub name: String,
    pub kind: Kind,
    pub is_dir: bool,
    /// True if the entry is a symlink, whatever it points at.
    pub is_link: bool,
    /// `None` for a directory, or a link whose target cannot be stat'd.
    pub size: Option<u64>,
    /// Unix seconds. `None` if unavailable.
    pub modified: Option<u64>,
}

#[derive(Debug)]
pub struct Listing {
    pub entries: Vec<Entry>,
    /// Total entries in the directory, before pagination.
    pub total: usize,
    pub offset: usize,
    /// True if any entry could not be read; the listing is still returned.
    pub partial: bool,
}

#[derive(Debug, Clone, Copy, PartialEq, Eq, Structural)]
pub enum Sort {
    /// Directories first, then case-insensitive by name. Needs no `stat`.
    Name,
    Size,
    Modified,
}

impl Default for Sort {
    fn default() -> (r: Self)
        ensures
            r == Sort::Name,
    {
        Sort::Name
    }
}

impl Sort {
    /// True if this ordering forces a `stat` of the entire directory.
    pub fn requires_full_stat(&self) -> (r: bool)
        ensures
            r == (*self != Sort::Name),
    {
        match self {
            Sort::Size | Sort::Modified => true,
            Sort::Name => false,
        }
    }
}

/// Cheap pre-stat record: everything that reading the directory gives for free.
#[derive(Debug)]
pub struct Shallow {
    pub name: String,
    pub is_dir: bool,
    pub is_link: bool,
}

/// What `stat` says of an entry, symlinks followed.
#[derive(Debug, Clone, Copy)]
pub struct Meta {
    pub is_dir: bool,
    pub len: u64,
    /// Unix seconds, where the time is known and not before the epoch.
    pub modified: Option<u64>,
}

pub struct EntryView {
    pub name: Seq<char>,
    pub kind: Kind,
    pub is_dir: bool,
    pub is_link: bool,
    pub size: Option<u64>,
    pub modified: Option<u64>,
}

impl View for Entry {
    type V = EntryView;

    open spec fn view(&self) -> EntryView {
        EntryView {
            name: self.name@,
            kind: self.kind,
            is_dir: self.is_dir,
            is_link: self.is_link,
            size: self.size,
            modified: self.modified,
        }
    }
}

pub open spec fn entry_views(v: Seq<Entry>) -> Seq<EntryView> {
    v.map_values(|e: Entry| e@)
}

/// An entry with what `stat` adds. A link's own type says "link", not what it
/// points at, so `stat` has the last word on what is a directory; a broken link
/// simply has no metadata.
pub open spec fn hydrated(s: Shallow, m: Option<Meta>) -> EntryView {
    let is_dir = match m {
        Some(meta) => meta.is_dir,
        None => s.is_dir,
    };
    EntryView {
        name: s.name@,
        kind: if is_dir {
            Kind::Dir
        } else {
            kind_of(extension(s.name@))
        },
        is_dir,
        is_link: s.is_link,
        size: match m {
            Some(meta) => if meta.is_dir {
                None
            } else {
                Some(meta.len)
            },
            None => None,
        },
        modified: match m {
            Some(meta) => meta.modified,
            None => None,
        },
    }
}

/// Attach `stat`-derived fields to one entry.
pub fn hydrate(s: &Shallow, meta: Option<Meta>) -> (r: Entry)
    ensures
        r@ == hydrated(*s, meta),
{
    let is_dir: bool = match meta {
        Some(m) => m.is_dir,
        None => s.is_dir,
    };
    let kind = if is_dir {
        Kind::Dir
    } else {
        Kind::from_extension(s.name.as_str())
    };
    let size: Option<u64> = match meta {
        Some(m) => if m.is_dir {
            None
        } else {
            Some(m.len)
        },
        None => None,
    };
    let modified: Option<u64> = match meta {
        Some(m) => m.modified,
        None => None,
    };
    Entry { name: s.name.clone(), kind, is_dir, is_link: s.is_link, size, modified }
}

// ---------------------------------------------------------------------------
// Ordering
// ---------------------------------------------------------------------------

/// What `str::to_lowercase` makes of a text.
pub uninterp spec fn lowercase(s: Seq<char>) -> Seq<char>;

/// Calls `str::to_lowercase`, which depends on the text alone.
#[verifier::external_body]
pub(crate) fn to_lowercase(s: &str) -> (r: String)
    ensures
        r@ == lowercase(s@),
{
    s.to_lowercase()
}

/// The characters of a text as numbers.
pub open spec fn codes(s: Seq<char>) -> Seq<u64> {
    s.map_values(|c: char| c as u64)
}

/// What an entry is ordered by where names decide: directories first, then the
/// name in lower case.
pub open spec fn name_key(is_dir: bool, lowered: Seq<char>) -> Seq<u64> {
    seq![
        if is_dir {
            0u64
        } else {
            1u64
        },
    ] + codes(lowered)
}

/// What an entry is ordered by where a number decides: the largest first, and
/// those without one last.
pub open spec fn number_key(n: Option<u64>) -> Seq<u64> {
    match n {
        Some(k) => seq![0u64, (u64::MAX - k) as u64],
        None => seq![1u64, 0u64],
    }
}

/// The keys of a directory's entries under a sort.
pub open spec fn sort_keys(shallow: Seq<Shallow>, metas: Seq<Option<Meta>>, sort: Sort) -> Seq<
    Seq<u64>,
> {
    Seq::new(
        shallow.len(),
        |i: int|
            match sort {
                Sort::Name => name_key(shallow[i].is_dir, lowercase(shallow[i].name@)),
                Sort::Size => number_key(hydrated(shallow[i], metas[i]).size),
                Sort::Modified => number_key(hydrated(shallow[i], metas[i]).modified),
            },
    )
}

/// The positions on a page: those after the first `offset`, up to `limit`.
pub open spec fn page(r: Seq<usize>, offset: nat, limit: nat) -> Seq<usize> {
    let start = if offset < r.len() {
        offset as int
    } else {
        r.len() as int
    };
    let end = if start + limit < r.len() {
        start + limit
    } else {
        r.len() as int
    };
    r.subrange(start, end)
}

/// `r` is all positions in the order that the sort gives.
pub open spec fn in_order(
    shallow: Seq<Shallow>,
    metas: Seq<Option<Meta>>,
    sort: Sort,
    r: Seq<usize>,
) -> bool {
    order::arranges(r, shallow.len()) && order::ascending(sort_keys(shallow, metas, sort), r)
}

fn name_key_of(s: &Shallow) -> (r: Vec<u64>)
    ensures
        r@ == name_key(s.is_dir, lowercase(s.name@)),
{
    let lowered = to_lowercase(s.name.as_str());
    let v = text::chars_of(lowered.as_str());
    let mut key: Vec<u64> = Vec::new();
    key.push(
        if s.is_dir {
            0
        } else {
            1
        },
    );
    let ghost head = key@;
    let mut i: usize = 0;
    assert(key@ =~= head + codes(v@.take(0)));
    while i < v.len()
        invariant
            i <= v.len(),
            key@ == head + codes(v@.take(i as int)),
        decreases v.len() - i,
    {
        key.push(v[i] as u64);
        i += 1;
        assert(key@ =~= head + codes(v@.take(i as int)));
    }
    assert(v@.take(i as int) =~= v@);
    assert(key@ =~= name_key(s.is_dir, lowercase(s.name@)));
    key
}

fn number_key_of(n: Option<u64>) -> (r: Vec<u64>)
    ensures
        r@ == number_key(n),
{
    let mut key: Vec<u64> = Vec::new();
    match n {
        Some(k) => {
            key.push(0);
            key.push(u64::MAX - k);
        },
        None => {
            key.push(1);
            key.push(0);
        },
    }
    assert(key@ =~= number_key(n));
    key
}

/// All positions in the order that the sort gives.
pub fn arrange(shallow: &Vec<Shallow>, metas: &Vec<Option<Meta>>, sort: Sort) -> (r: Vec<usize>)
    requires
        metas@.len() == shallow@.len(),
    ensures
        in_order(shallow@, metas@, sort, r@),
{
    let ghost want = sort_keys(shallow@, metas@, sort);
    let mut keys: Vec<Vec<u64>> = Vec::new();
    let mut i: usize = 0;
    while i < shallow.len()
        invariant
            i <= shallow.len(),
            metas@.len() == shallow@.len(),
            want == sort_keys(shallow@, metas@, sort),
            keys@.len() == i,
            forall|k: int| 0 <= k < i ==> (#[trigger] keys@[k])@ == want[k],
        decreases shallow.len() - i,
    {
        let key = match sort {
            Sort::Name => name_key_of(&shallow[i]),
            Sort::Size => number_key_of(hydrate(&shallow[i], metas[i]).size),
            Sort::Modified => number_key_of(hydrate(&shallow[i], metas[i]).modified),
        };
        keys.push(key);
        i += 1;
    }
    assert(order::key_views(keys@) =~= want);
    order::sort_positions(&keys)
}

/// The positions that `stat` has to be called on for a page: those on it where
/// names decide the order, and otherwise all.
pub fn needed(shallow: &Vec<Shallow>, offset: usize, limit: usize, sort: Sort) -> (r: Vec<usize>)
    ensures
        sort == Sort::Name ==> exists|o: Seq<usize>|
            #[trigger] names_in_order(shallow@, o) && r@ == page(o, offset as nat, limit as nat),
        sort != Sort::Name ==> r@ == Seq::new(shallow@.len(), |i: int| i as usize),
{
    if sort.requires_full_stat() {
        let mut all: Vec<usize> = Vec::new();
        let mut i: usize = 0;
        while i < shallow.len()
            invariant
                i <= shallow.len(),
                all@ == Seq::new(i as nat, |i: int| i as usize),
            decreases shallow.len() - i,
        {
            all.push(i);
            i += 1;
            assert(all@ =~= Seq::new(i as nat, |i: int| i as usize));
        }
        return all;
    }
    let none = no_metas(shallow.len());
    let order = arrange(shallow, &none, Sort::Name);
    proof {
        assert(sort_keys(shallow@, none@, Sort::Name) =~= name_keys(shallow@));
        assert(names_in_order(shallow@, order@));
    }
    page_of(&order, offset, limit)
}

fn no_metas(n: usize) -> (r: Vec<Option<Meta>>)
    ensures
        r@.len() == n,
{
    let mut out: Vec<Option<Meta>> = Vec::new();
    let mut i: usize = 0;
    while i < n
        invariant
            i <= n,
            out@.len() == i,
        decreases n - i,
    {
        out.push(None);
        i += 1;
    }
    out
}

/// The keys where names decide: no `stat` is looked at.
pub open spec fn name_keys(shallow: Seq<Shallow>) -> Seq<Seq<u64>> {
    Seq::new(
        shallow.len(),
        |i: int| name_key(shallow[i].is_dir, lowercase(shallow[i].name@)),
    )
}

pub open spec fn names_in_order(shallow: Seq<Shallow>, r: Seq<usize>) -> bool {
    order::arranges(r, shallow.len()) && order::ascending(name_keys(shallow), r)
}

fn page_of(order: &Vec<usize>, offset: usize, limit: usize) -> (r: Vec<usize>)
    ensures
        r@ == page(order@, offset as nat, limit as nat),
{
    let start: usize = if offset < order.len() {
        offset
    } else {
        order.len()
    };
    let mut out: Vec<usize> = Vec::new();
    let mut i: usize = start;
    while i < order.len() && i - start < limit
        invariant
            start <= i <= order.len(),
            i - start <= limit,
            out@ == order@.subrange(start as int, i as int),
        decreases order.len() - i,
    {
        out.push(order[i]);
        i += 1;
        assert(out@ =~= order@.subrange(start as int, i as int));
    }
    out
}

/// The entries at the given positions.
pub open spec fn entries_at(
    shallow: Seq<Shallow>,
    metas: Seq<Option<Meta>>,
    at: Seq<usize>,
) -> Seq<EntryView> {
    at.map_values(|i: usize| hydrated(shallow[i as int], metas[i as int]))
}

/// A page of a directory: its entries in order, from `offset` on, `limit` at
/// most. `metas` holds what `stat` said of each entry that was asked about.
pub fn list(
    shallow: &Vec<Shallow>,
    metas: &Vec<Option<Meta>>,
    partial: bool,
    offset: usize,
    limit: usize,
    sort: Sort,
) -> (r: Listing)
    requires
        metas@.len() == shallow@.len(),
    ensures
        exists|o: Seq<usize>| #[trigger]
            in_order(shallow@, metas@, sort, o) && entry_views(r.entries@) == entries_at(
                shallow@,
                metas@,
                page(o, offset as nat, limit as nat),
            ),
        r.total == shallow@.len(),
        r.offset == offset,
        r.partial == partial,
{
    let order = arrange(shallow, metas, sort);
    let at = page_of(&order, offset, limit);
    let mut entries: Vec<Entry> = Vec::new();
    let mut i: usize = 0;
    let ghost want = entries_at(shallow@, metas@, at@);
    assert(entry_views(entries@) =~= want.take(0));
    while i < at.len()
        invariant
            i <= at.len(),
            metas@.len() == shallow@.len(),
            order::arranges(order@, shallow@.len()),
            at@ == page(order@, offset as nat, limit as nat),
            want == entries_at(shallow@, metas@, at@),
            entry_views(entries@) == want.take(i as int),
        decreases at.len() - i,
    {
        let k: usize = at[i];
        proof {
            let start = if offset < order@.len() {
                offset as int
            } else {
                order@.len() as int
            };
            assert(at@[i as int] == order@[start + i]);
        }
        let e = hydrate(&shallow[k], metas[k]);
        let ghost before = entries@;
        let ghost view = e@;
        entries.push(e);
        assert(entry_views(entries@) =~= entry_views(before).push(view));
        assert(want[i as int] == view);
        assert(want.take(i + 1) =~= want.take(i as int).push(view));
        i += 1;
    }
    assert(want.take(i as int) =~= want);
    Listing { entries, total: shallow.len(), offset, partial }
}

// ---------------------------------------------------------------------------
// Laws
// ---------------------------------------------------------------------------

/// Where names decide, the order does not depend on any `stat`, so that only
/// the page has to be asked about.
pub proof fn names_need_no_stat(
    shallow: Seq<Shallow>,
    a: Seq<Option<Meta>>,
    b: Seq<Option<Meta>>,
    r: Seq<usize>,
)
    ensures
        in_order(shallow, a, Sort::Name, r) == in_order(shallow, b, Sort::Name, r),
        in_order(shallow, a, Sort::Name, r) == names_in_order(shallow, r),
{
    assert(sort_keys(shallow, a, Sort::Name) =~= sort_keys(shallow, b, Sort::Name));
    assert(sort_keys(shallow, a, Sort::Name) =~= name_keys(shallow));
}

/// A page is never longer than its limit, and one beyond the end is empty.
pub proof fn pages_are_bounded(r: Seq<usize>, offset: nat, limit: nat)
    ensures
        page(r, offset, limit).len() <= limit,
        offset >= r.len() ==> page(r, offset, limit).len() == 0,
        offset + limit <= r.len() ==> page(r, offset, limit).len() == limit,
{
}

/// One page after the other gives everything, in order.
pub proof fn pages_add_up(r: Seq<usize>, offset: nat, a: nat, b: nat)
    ensures
        page(r, offset, a) + page(r, offset + a, b) == page(r, offset, a + b),
{
    assert(page(r, offset, a) + page(r, offset + a, b) =~= page(r, offset, a + b));
}

/// Directories come before files where names decide.
pub proof fn directories_come_first(shallow: Seq<Shallow>, r: Seq<usize>, i: int, j: int)
    requires
        names_in_order(shallow, r),
        0 <= i < r.len(),
        0 <= j < r.len(),
        shallow[r[i] as int].is_dir,
        !shallow[r[j] as int].is_dir,
    ensures
        i < j,
{
    let keys = name_keys(shallow);
    let x = r[i] as int;
    let y = r[j] as int;
    assert(keys[x][0] == 0);
    assert(keys[y][0] == 1);
    if j < i {
        assert(order::before(keys, y, x));
        assert(keys[x] != keys[y]);
    }
}

/// Larger files come first where size decides, and those without a size last.
pub proof fn larger_comes_first(
    shallow: Seq<Shallow>,
    metas: Seq<Option<Meta>>,
    r: Seq<usize>,
    i: int,
    j: int,
)
    requires
        in_order(shallow, metas, Sort::Size, r),
        0 <= i < j < r.len(),
    ensures
        ({
            let a = hydrated(shallow[r[i] as int], metas[r[i] as int]).size;
            let b = hydrated(shallow[r[j] as int], metas[r[j] as int]).size;
            b is Some ==> a is Some && a->0 >= b->0
        }),
{
    let keys = sort_keys(shallow, metas, Sort::Size);
    let x = r[i] as int;
    let y = r[j] as int;
    assert(order::before(keys, x, y));
    let b = hydrated(shallow[y], metas[y]).size;
    if b is Some {
        assert(keys[y][0] == 0 && keys[y][1] == (u64::MAX - b->0) as u64);
        if keys[x] != keys[y] {
            assert(order::less(keys[x], keys[y]));
            if keys[x][0] == 0 {
                let p = keys[x].skip(1);
                let q = keys[y].skip(1);
                assert(p[0] == keys[x][1] && q[0] == keys[y][1]);
                assert(order::less(p, q));
                if p[0] == q[0] {
                    assert(p.skip(1).len() == 0 && q.skip(1).len() == 0);
                }
            }
        } else {
            assert(keys[x][0] == 0 && keys[x][1] == keys[y][1]);
        }
    }
}

/// What a file is, by its extension. Each extension is of one kind, in this order
/// where it could be of several: pictures, moving pictures, sound, text, documents,
/// archives.
pub proof fn kinds_go_by_extension(ext: Seq<char>)
    ensures
        ({
            let image = {
                ||| ext == "jpg"@
                ||| ext == "jpeg"@
                ||| ext == "png"@
                ||| ext == "gif"@
                ||| ext == "webp"@
                ||| ext == "avif"@
                ||| ext == "bmp"@
                ||| ext == "tif"@
                ||| ext == "tiff"@
                ||| ext == "heic"@
                ||| ext == "svg"@
            };
            let video = {
                ||| ext == "mp4"@
                ||| ext == "mkv"@
                ||| ext == "webm"@
                ||| ext == "mov"@
                ||| ext == "avi"@
                ||| ext == "m4v"@
                ||| ext == "wmv"@
                ||| ext == "flv"@
                ||| ext == "mpg"@
                ||| ext == "mpeg"@
            };
            let audio = {
                ||| ext == "mp3"@
                ||| ext == "flac"@
                ||| ext == "wav"@
                ||| ext == "ogg"@
                ||| ext == "opus"@
                ||| ext == "m4a"@
                ||| ext == "aac"@
                ||| ext == "wma"@
            };
            let text = {
                ||| ext == "txt"@
                ||| ext == "md"@
                ||| ext == "rs"@
                ||| ext == "py"@
                ||| ext == "js"@
                ||| ext == "ts"@
                ||| ext == "json"@
                ||| ext == "toml"@
                ||| ext == "yaml"@
                ||| ext == "yml"@
                ||| ext == "html"@
                ||| ext == "css"@
                ||| ext == "sh"@
                ||| ext == "c"@
                ||| ext == "h"@
                ||| ext == "cpp"@
                ||| ext == "go"@
                ||| ext == "lua"@
                ||| ext == "conf"@
                ||| ext == "log"@
                ||| ext == "csv"@
                ||| ext == "xml"@
            };
            let archive = {
                ||| ext == "zip"@
                ||| ext == "tar"@
                ||| ext == "gz"@
                ||| ext == "xz"@
                ||| ext == "zst"@
                ||| ext == "bz2"@
                ||| ext == "7z"@
                ||| ext == "rar"@
            };
            &&& kind_of(ext) == Kind::Image <==> image
            &&& kind_of(ext) == Kind::Video <==> !image && video
            &&& kind_of(ext) == Kind::Audio <==> !image && !video && audio
            &&& kind_of(ext) == Kind::Text <==> !image && !video && !audio && text
            &&& kind_of(ext) == Kind::Pdf <==> !image && !video && !audio && !text && ext == "pdf"@
            &&& kind_of(ext) == Kind::Archive <==> !image && !video && !audio && !text && ext
                != "pdf"@ && archive
            &&& kind_of(ext) != Kind::Dir
        }),
{
    let l = image_extensions();
    assert(l[0] == "jpg"@ && l[1] == "jpeg"@ && l[2] == "png"@ && l[3] == "gif"@ && l[4] == "webp"@ && l[5] == "avif"@ && l[6] == "bmp"@ && l[7] == "tif"@ && l[8] == "tiff"@ && l[9] == "heic"@ && l[10] == "svg"@);
    let l = video_extensions();
    assert(l[0] == "mp4"@ && l[1] == "mkv"@ && l[2] == "webm"@ && l[3] == "mov"@ && l[4] == "avi"@ && l[5] == "m4v"@ && l[6] == "wmv"@ && l[7] == "flv"@ && l[8] == "mpg"@ && l[9] == "mpeg"@);
    let l = audio_extensions();
    assert(l[0] == "mp3"@ && l[1] == "flac"@ && l[2] == "wav"@ && l[3] == "ogg"@ && l[4] == "opus"@ && l[5] == "m4a"@ && l[6] == "aac"@ && l[7] == "wma"@);
    let l = text_extensions();
    assert(l[0] == "txt"@ && l[1] == "md"@ && l[2] == "rs"@ && l[3] == "py"@ && l[4] == "js"@ && l[5] == "ts"@ && l[6] == "json"@ && l[7] == "toml"@ && l[8] == "yaml"@ && l[9] == "yml"@ && l[10] == "html"@ && l[11] == "css"@ && l[12] == "sh"@ && l[13] == "c"@ && l[14] == "h"@ && l[15] == "cpp"@ && l[16] == "go"@ && l[17] == "lua"@ && l[18] == "conf"@ && l[19] == "log"@ && l[20] == "csv"@ && l[21] == "xml"@);
    let l = archive_extensions();
    assert(l[0] == "zip"@ && l[1] == "tar"@ && l[2] == "gz"@ && l[3] == "xz"@ && l[4] == "zst"@ && l[5] == "bz2"@ && l[6] == "7z"@ && l[7] == "rar"@);
}

/// The extension is what follows the last point, in lower case; a name without a
/// point has none.
pub proof fn an_extension_follows_the_last_point(stem: Seq<char>, ext: Seq<char>, name: Seq<char>)
    requires
        !ext.contains('.'),
        !name.contains('.'),
    ensures
        extension(stem + "."@ + ext) == text::lower(ext),
        extension(name) == Seq::<char>::empty(),
{
    reveal_strlit(".");
    let s = stem + "."@ + ext;
    let n = stem.len() as int;
    assert(s[n] == '.');
    assert forall|j: int| n < j < s.len() implies s[j] != '.' by {
        assert(s[j] == ext[j - n - 1]);
        assert(ext.contains(ext[j - n - 1]));
    }
    text::lemma_rpos_is(s, '.', n);
    assert(s.skip(n + 1) =~= ext);
    text::lemma_rpos(name, '.');
    let k = text::rpos(name, '.');
    if k >= 0 {
        assert(name.contains(name[k]));
    }
}

/// What is told of an entry: what a link leads to where that could be looked at, a
/// size for what is no directory, and when it was changed where that is known.
pub proof fn an_entry_is_what_it_leads_to(s: Shallow, meta: Meta)
    ensures
        ({
            let e = hydrated(s, Some(meta));
            &&& e.name == s.name@
            &&& e.is_dir == meta.is_dir
            &&& e.is_link == s.is_link
            &&& meta.is_dir ==> e.kind == Kind::Dir && e.size is None
            &&& !meta.is_dir ==> e.kind == kind_of(extension(s.name@)) && e.size == Some(meta.len)
            &&& e.modified == meta.modified
            &&& hydrated(s, None).is_dir == s.is_dir
            &&& hydrated(s, None).name == s.name@
            &&& hydrated(s, None).is_link == s.is_link
            &&& s.is_dir ==> hydrated(s, None).kind == Kind::Dir
            &&& !s.is_dir ==> hydrated(s, None).kind == kind_of(extension(s.name@))
            &&& hydrated(s, None).size is None && hydrated(s, None).modified is None
        }),
{
}

/// A page is what stands from its offset on, as much as its limit allows.
pub proof fn a_page_starts_at_its_offset(r: Seq<usize>, offset: nat, limit: nat, i: int)
    requires
        0 <= i < page(r, offset, limit).len(),
    ensures
        offset < r.len(),
        page(r, offset, limit)[i] == r[offset + i],
        page(r, offset, limit).len() == (if offset + limit <= r.len() {
            limit as int
        } else {
            r.len() - offset
        }),
{
}

/// Sorted by when they were changed, the latest come first, and what is not known
/// comes last.
pub proof fn later_comes_first(
    shallow: Seq<Shallow>,
    metas: Seq<Option<Meta>>,
    r: Seq<usize>,
    i: int,
    j: int,
)
    requires
        in_order(shallow, metas, Sort::Modified, r),
        0 <= i < j < r.len(),
    ensures
        ({
            let a = hydrated(shallow[r[i] as int], metas[r[i] as int]).modified;
            let b = hydrated(shallow[r[j] as int], metas[r[j] as int]).modified;
            &&& b is Some ==> a is Some && a->0 >= b->0
            &&& a == b ==> r[i] < r[j]
        }),
{
    let keys = sort_keys(shallow, metas, Sort::Modified);
    assert(order::before(keys, r[i] as int, r[j] as int));
    let a = hydrated(shallow[r[i] as int], metas[r[i] as int]).modified;
    let b = hydrated(shallow[r[j] as int], metas[r[j] as int]).modified;
    lemma_number_keys(a, b);
}

proof fn lemma_number_keys(a: Option<u64>, b: Option<u64>)
    ensures
        order::less(number_key(a), number_key(b)) <==> (a is Some && b is None) || (a is Some && b
            is Some && a->0 > b->0),
        number_key(a) == number_key(b) <==> a == b,
{
    let x = number_key(a);
    let y = number_key(b);
    assert(x.take(0) =~= y.take(0));
    order::order_is_by_the_first_difference(x, y, 0);
    if x[0] == y[0] {
        assert(x.take(1) =~= y.take(1));
        order::order_is_by_the_first_difference(x, y, 1);
        if x[1] == y[1] {
            assert(x =~= y);
        }
    }
}

/// Sorted by size or by change, entries that are alike in it keep their order, and
/// what has no size comes last.
pub proof fn equal_sizes_keep_their_order(
    shallow: Seq<Shallow>,
    metas: Seq<Option<Meta>>,
    r: Seq<usize>,
    i: int,
    j: int,
)
    requires
        in_order(shallow, metas, Sort::Size, r),
        0 <= i < j < r.len(),
    ensures
        ({
            let a = hydrated(shallow[r[i] as int], metas[r[i] as int]).size;
            let b = hydrated(shallow[r[j] as int], metas[r[j] as int]).size;
            &&& b is Some ==> a is Some && a->0 >= b->0
            &&& a == b ==> r[i] < r[j]
        }),
{
    let keys = sort_keys(shallow, metas, Sort::Size);
    assert(order::before(keys, r[i] as int, r[j] as int));
    let a = hydrated(shallow[r[i] as int], metas[r[i] as int]).size;
    let b = hydrated(shallow[r[j] as int], metas[r[j] as int]).size;
    lemma_number_keys(a, b);
}

/// Sorted by name, what comes later among directories, or among what is none, is
/// not smaller at the first place where the lower-case names differ, nor does it
/// end there.
pub proof fn names_are_alphabetical(shallow: Seq<Shallow>, r: Seq<usize>, i: int, j: int, k: int)
    requires
        names_in_order(shallow, r),
        0 <= i < j < r.len(),
        shallow[r[i] as int].is_dir == shallow[r[j] as int].is_dir,
        0 <= k <= lowercase(shallow[r[i] as int].name@).len(),
        k <= lowercase(shallow[r[j] as int].name@).len(),
        lowercase(shallow[r[i] as int].name@).take(k) == lowercase(
            shallow[r[j] as int].name@,
        ).take(k),
    ensures
        ({
            let a = lowercase(shallow[r[i] as int].name@);
            let b = lowercase(shallow[r[j] as int].name@);
            &&& k < a.len() && k < b.len() ==> a[k] as u64 <= b[k] as u64
            &&& k == b.len() ==> k == a.len()
            &&& a == b ==> r[i] < r[j]
        }),
{
    let a = lowercase(shallow[r[i] as int].name@);
    let b = lowercase(shallow[r[j] as int].name@);
    let keys = name_keys(shallow);
    let x = keys[r[i] as int];
    let y = keys[r[j] as int];
    assert(order::before(keys, r[i] as int, r[j] as int));
    assert(x.take(k + 1) =~= y.take(k + 1)) by {
        assert forall|n: int| 0 <= n < k implies codes(a)[n] == codes(b)[n] by {
            assert(a.take(k)[n] == b.take(k)[n]);
        }
        assert(x.take(k + 1).len() == y.take(k + 1).len());
        let p = x.take(k + 1);
        let q = y.take(k + 1);
        assert forall|n: int| 0 <= n < p.len() implies #[trigger] p[n] == q[n] by {
            if n > 0 {
                assert(x[n] == codes(a)[n - 1]);
                assert(y[n] == codes(b)[n - 1]);
            }
        }
    }
    order::order_is_by_the_first_difference(x, y, k + 1);
    assert(y.take(k + 1) == x.take(k + 1));
    order::order_is_by_the_first_difference(y, x, k + 1);
    if k < a.len() && k < b.len() {
        assert(x[k + 1] == a[k] as u64 && y[k + 1] == b[k] as u64);
    }
    if a == b {
        assert(x =~= y);
    }
    assert(x.len() == a.len() + 1 && y.len() == b.len() + 1);
    if k == b.len() && k < a.len() {
        assert(order::less(y, x) && !order::less(x, y));
        assert(x.len() != y.len());
    }
    if k < a.len() && k < b.len() && a[k] as u64 > b[k] as u64 {
        assert(codes(a)[k] > codes(b)[k]);
        assert(x[k + 1] != y[k + 1]);
        assert(!order::less(x, y));
    }
}

} // verus!

//! Confining requested paths to their root.
//!
//! This is the security boundary of the file manager. Everything else — listing,
//! previews, downloads — is built on the guarantee that a request cannot address
//! a byte outside a configured root.
//!
//! The rule is: **resolve fully, then verify containment.** Textual checks are
//! not sufficient, because the filesystem has three separate ways to leave a
//! directory that look innocent as strings:
//!
//! * `..` components, including ones hidden inside an otherwise-valid path
//! * absolute paths supplied where a relative one was expected
//! * **symlinks**, which are the important one — `root/link` can point anywhere,
//!   and no amount of string inspection reveals it
//!
//! So a request is first turned into a [`candidate`]; whoever holds the
//! filesystem follows every symlink of it and resolves every `..`; and
//! containment is checked by [`resolve`] on the result.

use crate::text;
use vstd::prelude::*;

verus! {

#[derive(Debug, Clone, Copy, PartialEq, Eq, Structural)]
pub enum PathError {
    /// The named root is not configured.
    UnknownRoot,
    /// Resolved outside its root — traversal, symlink escape, or absolute path.
    Escapes,
    /// Does not exist.
    NotFound,
    /// A component was not a plain name (`..`, `/`, or an embedded NUL).
    InvalidComponent,
}

impl PathError {
    pub open spec fn message(self) -> Seq<char> {
        match self {
            PathError::UnknownRoot => "no such root"@,
            PathError::Escapes => "not found"@,
            PathError::NotFound => "not found"@,
            PathError::InvalidComponent => "invalid path"@,
        }
    }

    /// Deliberately uniform for `Escapes` and `NotFound`.
    ///
    /// Distinguishing them tells a caller whether a path outside the root
    /// exists, which is a filesystem oracle. The log records the real reason.
    pub fn public_message(&self) -> (r: &'static str)
        ensures
            r@ == self.message(),
    {
        match self {
            PathError::UnknownRoot => "no such root",
            PathError::Escapes => "not found",
            PathError::NotFound => "not found",
            PathError::InvalidComponent => "invalid path",
        }
    }
}

/// A root the file manager may serve.
#[derive(Debug, Clone)]
pub struct Root {
    pub name: String,
    /// Canonicalised before construction; comparisons rely on it being real.
    pub path: String,
    pub writable: bool,
}

impl Root {
    /// A configured root, given its path with every symlink followed; none
    /// where it does not exist.
    ///
    /// Resolving once at startup means every later containment check compares
    /// two already-real paths, rather than re-deriving the root each request.
    pub fn new(name: String, led: Option<String>, writable: bool) -> (r: Option<Self>)
        ensures
            r is Some <==> led is Some,
            r matches Some(root) ==> root.name == name && Some(root.path) == led && root.writable
                == writable,
    {
        match led {
            Some(path) => Some(Root { name, path, writable }),
            None => None,
        }
    }
}

// ---------------------------------------------------------------------------
// What paths mean
// ---------------------------------------------------------------------------

/// A segment that names something.
pub open spec fn names(seg: Seq<char>) -> bool {
    seg.len() > 0 && seg != "."@
}

/// The names along a path. Doubled slashes and `.` name nothing.
pub open spec fn components(p: Seq<char>) -> Seq<Seq<char>> {
    text::split(p, '/').filter(|s: Seq<char>| names(s))
}

pub open spec fn absolute(p: Seq<char>) -> bool {
    p.len() > 0 && p[0] == '/'
}

/// `a` is where `b` starts.
pub open spec fn leads(a: Seq<Seq<char>>, b: Seq<Seq<char>>) -> bool {
    a.len() <= b.len() && b.take(a.len() as int) == a
}

/// `p` is the root or lies below it.
pub open spec fn inside(root: Seq<char>, p: Seq<char>) -> bool {
    absolute(root) == absolute(p) && leads(components(root), components(p))
}

/// A plain, single path segment.
pub open spec fn plain(part: Seq<char>) -> bool {
    &&& part.len() > 0
    &&& part != "."@
    &&& part != ".."@
    &&& !part.contains('/')
    &&& !part.contains('\\')
    &&& !part.contains('\0')
}

/// Every segment of a request is plain or names nothing.
pub open spec fn plain_request(relative: Seq<char>) -> bool {
    forall|i: int|
        0 <= i < text::split(relative, '/').len() ==> {
            let part = #[trigger] text::split(relative, '/')[i];
            !names(part) || plain(part)
        }
}

/// The first `n` segments of a request, put below the root one after another.
pub open spec fn placed(root: Seq<char>, parts: Seq<Seq<char>>, n: int) -> Seq<char>
    decreases n,
{
    if n <= 0 {
        root
    } else if names(parts[n - 1]) {
        text::under(placed(root, parts, n - 1), parts[n - 1])
    } else {
        placed(root, parts, n - 1)
    }
}

/// Where a request points before any symlink is followed.
pub open spec fn pointed(root: Seq<char>, relative: Seq<char>) -> Seq<char> {
    placed(root, text::split(relative, '/'), text::split(relative, '/').len() as int)
}

/// What a request resolves to, given where the filesystem says it leads.
pub open spec fn resolved(root: Seq<char>, relative: Seq<char>, led: Option<Seq<char>>) -> Result<
    Seq<char>,
    PathError,
> {
    if !plain_request(relative) {
        Err(PathError::InvalidComponent)
    } else {
        match led {
            None => Err(PathError::NotFound),
            Some(p) => if inside(root, p) {
                Ok(p)
            } else {
                Err(PathError::Escapes)
            },
        }
    }
}

// ---------------------------------------------------------------------------
// The operations
// ---------------------------------------------------------------------------

/// Reject anything that is not a plain, single path segment.
///
/// Applied to each component of the *requested* relative path before it is
/// joined, so an obviously hostile request is refused before it ever touches the
/// filesystem. This is defence in depth: containment is still verified after
/// resolution, and that check is the one that must be correct.
pub fn is_plain_component(part: &str) -> (r: bool)
    ensures
        r == plain(part@),
{
    !part.is_empty() && !text::same(part, ".") && !text::same(part, "..") && !text::contains_char(
        part,
        '/',
    ) && !text::contains_char(part, '\\') && !text::contains_char(part, '\0')
}

fn is_name(seg: &str) -> (r: bool)
    ensures
        r == names(seg@),
{
    !seg.is_empty() && !text::same(seg, ".")
}

fn components_of(p: &str) -> (r: Vec<String>)
    ensures
        text::strs(r@) == components(p@),
        r@.len() == components(p@).len(),
{
    let segs = text::split_str(p, '/');
    let ghost all = text::split(p@, '/');
    let ghost keep = |s: Seq<char>| names(s);
    let mut out: Vec<String> = Vec::new();
    let mut i: usize = 0;
    proof {
        text::lemma_filter_none(all, keep);
        assert(text::strs(out@) =~= seq![]);
    }
    while i < segs.len()
        invariant
            i <= segs.len(),
            all == text::split(p@, '/'),
            text::strs(segs@) == all,
            keep == (|s: Seq<char>| names(s)),
            text::strs(out@) == all.take(i as int).filter(keep),
        decreases segs.len() - i,
    {
        proof {
            text::lemma_filter_next(all, keep, i as int);
            assert(text::strs(segs@)[i as int] == segs@[i as int]@);
        }
        if is_name(segs[i].as_str()) {
            let s = segs[i].clone();
            proof {
                text::lemma_strs_push(out@, s);
            }
            out.push(s);
        }
        i += 1;
    }
    assert(all.take(i as int) =~= all);
    assert(text::strs(out@).len() == out@.len());
    out
}

fn is_absolute(p: &str) -> (r: bool)
    ensures
        r == absolute(p@),
{
    let v = text::chars_of(p);
    v.len() > 0 && v[0] == '/'
}

/// Whether `p` is the root or lies below it.
pub fn is_inside(root: &str, p: &str) -> (r: bool)
    ensures
        r == inside(root@, p@),
{
    if is_absolute(root) != is_absolute(p) {
        return false;
    }
    let a = components_of(root);
    let b = components_of(p);
    let ghost x = components(root@);
    let ghost y = components(p@);
    if a.len() > b.len() {
        return false;
    }
    let mut i: usize = 0;
    while i < a.len()
        invariant
            i <= a.len() <= b.len(),
            x == components(root@),
            y == components(p@),
            text::strs(a@) == x,
            text::strs(b@) == y,
            forall|j: int| 0 <= j < i ==> x[j] == y[j],
        decreases a.len() - i,
    {
        assert(x[i as int] == a@[i as int]@);
        assert(y[i as int] == b@[i as int]@);
        if !text::same(a[i].as_str(), b[i].as_str()) {
            assert(y.take(x.len() as int)[i as int] != x[i as int]);
            return false;
        }
        i += 1;
    }
    assert(y.take(x.len() as int) =~= x);
    true
}

/// Where a request points, for the filesystem to follow. Refused where a
/// component is not plain.
pub fn candidate(root: &Root, relative: &str) -> (r: Result<String, PathError>)
    ensures
        match r {
            Ok(p) => plain_request(relative@) && p@ == pointed(root.path@, relative@),
            Err(e) => e == PathError::InvalidComponent && !plain_request(relative@),
        },
{
    let parts = text::split_str(relative, '/');
    let ghost all = text::split(relative@, '/');
    let mut at = root.path.clone();
    let mut i: usize = 0;
    while i < parts.len()
        invariant
            i <= parts.len(),
            all == text::split(relative@, '/'),
            text::strs(parts@) == all,
            at@ == placed(root.path@, all, i as int),
            forall|j: int| 0 <= j < i ==> !names(#[trigger] all[j]) || plain(all[j]),
        decreases parts.len() - i,
    {
        assert(all[i as int] == parts@[i as int]@);
        // Tolerate empty segments from leading, trailing or doubled slashes.
        if is_name(parts[i].as_str()) {
            if !is_plain_component(parts[i].as_str()) {
                assert(!plain(all[i as int]));
                return Err(PathError::InvalidComponent);
            }
            at = text::join_path(at.as_str(), parts[i].as_str());
        }
        i += 1;
    }
    Ok(at)
}

/// Resolve `relative` within `root`, guaranteeing the result is inside it.
///
/// `led` is the path that the candidate leads to with symlinks followed and
/// `..` resolved, and `None` where it leads nowhere. A symlink inside the root
/// that points outside it resolves to its target and is then rejected by the
/// containment check — which is the entire reason resolution happens before
/// verification rather than after.
pub fn resolve(root: &Root, relative: &str, led: Option<&str>) -> (r: Result<String, PathError>)
    ensures
        match r {
            Ok(p) => resolved(root.path@, relative@, seen(led)) == Ok::<Seq<char>, PathError>(p@),
            Err(e) => resolved(root.path@, relative@, seen(led)) == Err::<Seq<char>, PathError>(e),
        },
{
    match candidate(root, relative) {
        Err(e) => Err(e),
        Ok(_) => match led {
            None => Err(PathError::NotFound),
            Some(p) => {
                if is_inside(root.path.as_str(), p) {
                    Ok(p.to_string())
                } else {
                    Err(PathError::Escapes)
                }
            },
        },
    }
}

pub open spec fn seen(led: Option<&str>) -> Option<Seq<char>> {
    match led {
        Some(p) => Some(p@),
        None => None,
    }
}

/// What is left of the segments of a path once `k` of them that name something
/// are gone, from the next that does.
pub open spec fn past(segs: Seq<Seq<char>>, k: nat) -> Seq<Seq<char>>
    decreases segs.len(),
{
    if segs.len() == 0 || (k == 0 && names(segs[0])) {
        segs
    } else {
        past(
            segs.skip(1),
            if names(segs[0]) {
                (k - 1) as nat
            } else {
                k
            },
        )
    }
}

/// Segments up to the last that names something.
pub open spec fn trimmed(segs: Seq<Seq<char>>) -> Seq<Seq<char>>
    decreases segs.len(),
{
    if segs.len() == 0 || names(segs.last()) {
        segs
    } else {
        trimmed(segs.drop_last())
    }
}

/// What stands in `p` behind the root, from the first name there to the last, as
/// it is written; empty where `p` is not inside.
pub open spec fn below(root: Seq<char>, p: Seq<char>) -> Seq<char> {
    if inside(root, p) {
        text::join(trimmed(past(text::split(p, '/'), components(root).len())), "/"@)
    } else {
        seq![]
    }
}

/// Express a resolved path relative to its root, for display and for building
/// links back into the API.
pub fn relative_to(root: &Root, resolved: &str) -> (r: String)
    ensures
        r@ == below(root.path@, resolved@),
{
    if !is_inside(root.path.as_str(), resolved) {
        return String::new();
    }
    let mut k: usize = components_of(root.path.as_str()).len();
    let segs = text::split_str(resolved, '/');
    let ghost y = text::split(resolved@, '/');
    let ghost n = components(root.path@).len();
    let mut from: usize = 0;
    assert(y.skip(0) =~= y);
    while from < segs.len()
        invariant_except_break
            from <= segs@.len(),
            text::strs(segs@) == y,
            past(y.skip(from as int), k as nat) == past(y, n),
        ensures
            from <= segs@.len(),
            y.skip(from as int) == past(y, n),
        decreases segs.len() - from,
    {
        assert(y[from as int] == segs@[from as int]@);
        assert(y.skip(from as int)[0] == y[from as int]);
        assert(y.skip(from as int).skip(1) =~= y.skip(from + 1));
        let named = is_name(segs[from].as_str());
        if named && k == 0 {
            break ;
        }
        if named {
            k -= 1;
        }
        from += 1;
    }
    let ghost rest = past(y, n);
    let mut to: usize = segs.len();
    assert(y.subrange(from as int, to as int) =~= rest);
    while to > from
        invariant_except_break
            from <= to <= segs@.len(),
            text::strs(segs@) == y,
            trimmed(y.subrange(from as int, to as int)) == trimmed(rest),
        ensures
            from <= to <= segs@.len(),
            y.subrange(from as int, to as int) == trimmed(rest),
        decreases to - from,
    {
        assert(y[to - 1] == segs@[to - 1]@);
        assert(y.subrange(from as int, to as int).last() == y[to - 1]);
        assert(y.subrange(from as int, to as int).drop_last() =~= y.subrange(
            from as int,
            to - 1,
        ));
        if is_name(segs[to - 1].as_str()) {
            break ;
        }
        to -= 1;
    }
    let mut kept: Vec<String> = Vec::new();
    let mut i: usize = from;
    while i < to
        invariant
            from <= i <= to <= segs@.len(),
            text::strs(segs@) == y,
            text::strs(kept@) =~= y.subrange(from as int, i as int),
        decreases to - i,
    {
        let s = segs[i].clone();
        proof {
            text::lemma_strs_push(kept@, s);
            assert(y[i as int] == segs@[i as int]@);
        }
        kept.push(s);
        i += 1;
    }
    text::join_strs(&kept, "/")
}

/// Find a root by name: the first of that name.
pub fn find<'a>(roots: &'a [Root], name: &str) -> (r: Result<&'a Root, PathError>)
    ensures
        match r {
            Ok(root) => exists|i: int|
                0 <= i < roots@.len() && *root == #[trigger] roots@[i] && roots@[i].name@ == name@
                    && forall|j: int| 0 <= j < i ==> (#[trigger] roots@[j]).name@ != name@,
            Err(e) => e == PathError::UnknownRoot && forall|i: int|
                0 <= i < roots@.len() ==> (#[trigger] roots@[i]).name@ != name@,
        },
{
    let mut i: usize = 0;
    while i < roots.len()
        invariant
            i <= roots.len(),
            forall|j: int| 0 <= j < i ==> (#[trigger] roots@[j]).name@ != name@,
        decreases roots.len() - i,
    {
        if text::same(roots[i].name.as_str(), name) {
            return Ok(&roots[i]);
        }
        i += 1;
    }
    Err(PathError::UnknownRoot)
}

/// A path that may be made: relative, without `..`, without a leading `.`, and
/// without NUL.
pub open spec fn safe_new(relative: Seq<char>) -> bool {
    &&& relative.len() > 0
    &&& relative[0] != '/'
    &&& text::split(relative, '/')[0] != "."@
    &&& !text::split(relative, '/').contains(".."@)
    &&& !relative.contains('\0')
}

/// True if `path` has no `..` or absolute components — used for paths that must
/// be validated *before* they exist, such as an upload destination.
pub fn is_safe_new_path(relative: &str) -> (r: bool)
    ensures
        r == safe_new(relative@),
{
    let v = text::chars_of(relative);
    if v.len() == 0 || v[0] == '/' {
        return false;
    }
    let parts = text::split_str(relative, '/');
    assert(text::strs(parts@)[0] == parts@[0]@);
    if text::same(parts[0].as_str(), ".") {
        return false;
    }
    !text::any_same(&parts, "..") && !text::contains_char(relative, '\0')
}

// ---------------------------------------------------------------------------
// Laws
// ---------------------------------------------------------------------------

/// Nothing outside the root is ever handed out: what a request resolves to is
/// the root or lies below it, wherever the filesystem led.
pub proof fn nothing_escapes(root: Seq<char>, relative: Seq<char>, led: Option<Seq<char>>)
    ensures
        resolved(root, relative, led) matches Ok(p) ==> inside(root, p) && led == Some(p),
        led matches Some(p) ==> !inside(root, p) ==> resolved(root, relative, led) is Err,
{
}

/// What lies outside the root and what does not exist are the same to a caller.
pub proof fn outside_and_absent_look_alike(
    root: Seq<char>,
    relative: Seq<char>,
    outside: Seq<char>,
)
    requires
        !inside(root, outside),
    ensures
        resolved(root, relative, Some(outside)) is Err,
        resolved(root, relative, None) is Err,
        resolved(root, relative, Some(outside))->Err_0.message() == resolved(
            root,
            relative,
            None,
        )->Err_0.message(),
{
}

/// A request with a `..` segment is refused, whatever the filesystem holds.
pub proof fn dotdot_is_refused(
    root: Seq<char>,
    relative: Seq<char>,
    led: Option<Seq<char>>,
    i: int,
)
    requires
        0 <= i < text::split(relative, '/').len(),
        text::split(relative, '/')[i] == ".."@,
    ensures
        resolved(root, relative, led) == Err::<Seq<char>, PathError>(PathError::InvalidComponent),
{
    reveal_strlit("..");
    reveal_strlit(".");
    assert(names(text::split(relative, '/')[i]));
    assert(!plain(text::split(relative, '/')[i]));
}

/// A plain segment put below a directory adds itself to its components.
proof fn lemma_under(dir: Seq<char>, part: Seq<char>)
    requires
        dir.len() > 0,
        plain(part),
    ensures
        components(text::under(dir, part)) == components(dir).push(part),
        absolute(text::under(dir, part)) == absolute(dir),
        text::under(dir, part).len() > 0,
{
    let keep = |s: Seq<char>| names(s);
    text::lemma_split_one(part, '/');
    if part[0] == '/' {
        assert(part.contains(part[0]));
    }
    let all = text::under(dir, part);
    if dir.last() == '/' {
        let d = dir.drop_last();
        assert(dir =~= d.push('/') + Seq::<char>::empty());
        assert(all =~= d.push('/') + part);
        text::lemma_split_join(d, '/', Seq::<char>::empty());
        text::lemma_split_join(d, '/', part);
        text::lemma_split_one(Seq::<char>::empty(), '/');
        let s = text::split(d, '/');
        lemma_filter_last(s, Seq::<char>::empty(), keep);
        lemma_filter_last(s, part, keep);
        assert(s + seq![Seq::<char>::empty()] =~= s.push(Seq::<char>::empty()));
        assert(s + seq![part] =~= s.push(part));
    } else {
        assert(all =~= dir.push('/') + part);
        text::lemma_split_join(dir, '/', part);
        let s = text::split(dir, '/');
        lemma_filter_last(s, part, keep);
        assert(s + seq![part] =~= s.push(part));
    }
}

proof fn lemma_filter_last(s: Seq<Seq<char>>, x: Seq<char>, keep: spec_fn(Seq<char>) -> bool)
    ensures
        s.push(x).filter(keep) == (if keep(x) {
            s.filter(keep).push(x)
        } else {
            s.filter(keep)
        }),
{
    reveal(Seq::filter);
    assert(s.push(x).drop_last() =~= s);
}

/// What is handed to the filesystem already lies below the root by name: only a
/// symlink can lead out of it.
pub proof fn a_candidate_stays_below(root: Seq<char>, relative: Seq<char>, n: int)
    requires
        root.len() > 0,
        plain_request(relative),
        0 <= n <= text::split(relative, '/').len(),
    ensures
        inside(root, placed(root, text::split(relative, '/'), n)),
        placed(root, text::split(relative, '/'), n).len() > 0,
    decreases n,
{
    let parts = text::split(relative, '/');
    if n > 0 {
        a_candidate_stays_below(root, relative, n - 1);
        if names(parts[n - 1]) {
            assert(plain(parts[n - 1]));
            let before = placed(root, parts, n - 1);
            lemma_under(before, parts[n - 1]);
            let a = components(root);
            let b = components(before);
            assert(b.push(parts[n - 1]).take(a.len() as int) =~= b.take(a.len() as int));
        }
    } else {
        assert(components(root).take(components(root).len() as int) =~= components(root));
    }
}

/// A path from the root of the filesystem along the given names.
pub open spec fn written(c: Seq<Seq<char>>) -> Seq<char> {
    "/"@ + text::join(c, "/"@)
}

/// A path as the filesystem gives it back: absolute, and nothing in it but the
/// names along it.
pub open spec fn canonical(p: Seq<char>) -> bool {
    p == written(components(p))
}

/// A name along a path.
spec fn is_name_on(x: Seq<char>) -> bool {
    names(x) && !x.contains('/')
}

proof fn lemma_components(p: Seq<char>)
    ensures
        forall|i: int| 0 <= i < components(p).len() ==> is_name_on(#[trigger] components(p)[i]),
{
    let keep = |s: Seq<char>| names(s);
    let s = text::split(p, '/');
    text::lemma_split(p, '/');
    assert forall|k: int| 0 <= k < s.len() implies !(#[trigger] s[k]).contains('/') by {
        if s[k].contains('/') {
            let j = choose|j: int| 0 <= j < s[k].len() && s[k][j] == '/';
            assert(s[k][j] != '/');
        }
    }
    lemma_kept_names(s, keep);
}

proof fn lemma_kept_names(s: Seq<Seq<char>>, keep: spec_fn(Seq<char>) -> bool)
    requires
        keep == (|s: Seq<char>| names(s)),
        forall|k: int| 0 <= k < s.len() ==> !(#[trigger] s[k]).contains('/'),
    ensures
        forall|i: int| 0 <= i < s.filter(keep).len() ==> is_name_on(#[trigger] s.filter(keep)[i]),
    decreases s.len(),
{
    reveal(Seq::filter);
    if s.len() > 0 {
        let d = s.drop_last();
        let x = s[s.len() - 1];
        assert forall|k: int| 0 <= k < d.len() implies !(#[trigger] d[k]).contains('/') by {
            assert(!s[k].contains('/'));
        }
        lemma_kept_names(d, keep);
        assert(!x.contains('/'));
        assert(d.push(x) =~= s);
        lemma_filter_last(d, x, keep);
        assert(keep(x) == names(x));
        assert forall|i: int| 0 <= i < s.filter(keep).len() implies is_name_on(
            #[trigger] s.filter(keep)[i],
        ) by {
            if i < d.filter(keep).len() {
                assert(is_name_on(d.filter(keep)[i]));
            }
        }
    }
}

/// A name put below a path comes last among its names.
proof fn lemma_written_under(c: Seq<Seq<char>>, x: Seq<char>)
    requires
        forall|i: int| 0 <= i < c.len() ==> is_name_on(#[trigger] c[i]),
        is_name_on(x),
    ensures
        text::under(written(c), x) == written(c.push(x)),
{
    reveal_strlit("/");
    let w = written(c);
    assert(x[0] != '/') by {
        assert(x.contains(x[0]));
    }
    assert(c.push(x).drop_last() =~= c);
    if c.len() == 0 {
        assert(w =~= "/"@);
        assert(text::under(w, x) =~= "/"@ + x);
    } else {
        lemma_ends_in_name(c);
        assert(w.last() == text::join(c, "/"@).last());
        assert(text::under(w, x) =~= "/"@ + (text::join(c, "/"@) + "/"@ + x));
    }
}

proof fn lemma_ends_in_name(c: Seq<Seq<char>>)
    requires
        c.len() > 0,
        forall|i: int| 0 <= i < c.len() ==> is_name_on(#[trigger] c[i]),
    ensures
        text::join(c, "/"@).len() > 0,
        text::join(c, "/"@).last() != '/',
{
    let x = c[c.len() - 1];
    assert(is_name_on(x));
    assert(x.contains(x.last()));
}

/// Names put together with slashes come apart again.
proof fn lemma_names_come_apart(c: Seq<Seq<char>>)
    requires
        c.len() > 0,
        forall|i: int| 0 <= i < c.len() ==> is_name_on(#[trigger] c[i]),
    ensures
        text::split(text::join(c, "/"@), '/') == c,
    decreases c.len(),
{
    reveal_strlit("/");
    let x = c[c.len() - 1];
    assert(is_name_on(x));
    text::lemma_split_one(x, '/');
    if c.len() == 1 {
        assert(c =~= seq![x]);
    } else {
        let d = c.drop_last();
        assert forall|i: int| 0 <= i < d.len() implies is_name_on(#[trigger] d[i]) by {
            assert(is_name_on(c[i]));
        }
        lemma_names_come_apart(d);
        let j = text::join(d, "/"@);
        assert(text::join(c, "/"@) =~= j.push('/') + x);
        text::lemma_split_join(j, '/', x);
        assert(d + seq![x] =~= c);
    }
}

proof fn lemma_placed(c: Seq<Seq<char>>, parts: Seq<Seq<char>>, n: int)
    requires
        forall|i: int| 0 <= i < c.len() ==> is_name_on(#[trigger] c[i]),
        forall|i: int| 0 <= i < parts.len() ==> is_name_on(#[trigger] parts[i]),
        0 <= n <= parts.len(),
    ensures
        placed(written(c), parts, n) == written(c + parts.take(n)),
    decreases n,
{
    if n == 0 {
        assert(c + parts.take(0) =~= c);
    } else {
        lemma_placed(c, parts, n - 1);
        let d = c + parts.take(n - 1);
        assert(is_name_on(parts[n - 1]));
        assert forall|i: int| 0 <= i < d.len() implies is_name_on(#[trigger] d[i]) by {
            if i < c.len() {
                assert(is_name_on(c[i]));
            } else {
                assert(is_name_on(parts[i - c.len()]));
            }
        }
        lemma_written_under(d, parts[n - 1]);
        assert(d.push(parts[n - 1]) =~= c + parts.take(n));
    }
}

/// Behind some of the names of a path come the others.
proof fn lemma_past_names(c: Seq<Seq<char>>, k: nat)
    requires
        forall|i: int| 0 <= i < c.len() ==> is_name_on(#[trigger] c[i]),
        k <= c.len(),
    ensures
        past(c, k) == c.skip(k as int),
    decreases c.len(),
{
    if k > 0 {
        let d = c.skip(1);
        assert(is_name_on(c[0]));
        assert forall|i: int| 0 <= i < d.len() implies is_name_on(#[trigger] d[i]) by {
            assert(is_name_on(c[i + 1]));
        }
        lemma_past_names(d, (k - 1) as nat);
        assert(d.skip(k - 1) =~= c.skip(k as int));
    } else {
        assert(c.skip(0) =~= c);
        if c.len() > 0 {
            assert(is_name_on(c[0]));
        }
    }
}

/// What stands behind the first `k` names of a path as the filesystem gives it
/// back are its other names.
proof fn lemma_behind(c: Seq<Seq<char>>, k: nat)
    requires
        forall|i: int| 0 <= i < c.len() ==> is_name_on(#[trigger] c[i]),
        k <= c.len(),
    ensures
        trimmed(past(text::split(written(c), '/'), k)) == c.skip(k as int),
{
    reveal_strlit("/");
    reveal_strlit(".");
    let none = Seq::<char>::empty();
    let j = text::join(c, "/"@);
    assert(written(c) =~= none.push('/') + j);
    text::lemma_split_cons(none, '/', j);
    let segs = text::split(written(c), '/');
    assert(segs.skip(1) =~= text::split(j, '/'));
    if c.len() == 0 {
        text::lemma_split_one(j, '/');
        assert(segs.skip(1) =~= seq![none]);
        assert(seq![none].skip(1) =~= Seq::<Seq<char>>::empty());
        assert(past(seq![none], 0) == past(seq![none].skip(1), 0));
        assert(past(segs, 0) == past(segs.skip(1), 0));
        assert(c.skip(0) =~= Seq::<Seq<char>>::empty());
    } else {
        lemma_names_come_apart(c);
        assert(past(segs, k) == past(c, k));
        lemma_past_names(c, k);
        let rest = c.skip(k as int);
        if rest.len() > 0 {
            assert(is_name_on(c[c.len() - 1]));
            assert(rest.last() == c[c.len() - 1]);
        }
    }
}

/// A path that the filesystem gave back is called, below its root, by the names
/// that come behind the root's.
proof fn lemma_below(root: Seq<char>, p: Seq<char>)
    requires
        canonical(p),
        inside(root, p),
    ensures
        below(root, p) == text::join(components(p).skip(components(root).len() as int), "/"@),
{
    lemma_components(p);
    lemma_behind(components(p), components(root).len());
}

/// A request made of the names that lead from the root to a path points at the
/// path.
proof fn lemma_names_lead_back(root: Seq<char>, p: Seq<char>, parts: Seq<Seq<char>>)
    requires
        canonical(root),
        canonical(p),
        components(p) == components(root) + parts,
        forall|i: int| 0 <= i < parts.len() ==> plain(#[trigger] parts[i]),
    ensures
        plain_request(text::join(parts, "/"@)),
        pointed(root, text::join(parts, "/"@)) == p,
{
    lemma_components(root);
    lemma_components(p);
    let c = components(root);
    let rel = text::join(parts, "/"@);
    assert forall|i: int| 0 <= i < parts.len() implies is_name_on(#[trigger] parts[i]) by {
        assert(is_name_on(components(p)[c.len() + i]));
    }
    if parts.len() == 0 {
        assert(rel =~= seq![]);
        text::lemma_split_one(rel, '/');
        assert(components(p) =~= c);
        assert(placed(root, text::split(rel, '/'), 0) == root);
    } else {
        lemma_names_come_apart(parts);
        lemma_placed(c, parts, parts.len() as int);
        assert(parts.take(parts.len() as int) =~= parts);
    }
}

/// What a path is called below its root leads back to it: the request points at
/// the path itself, is not refused, and resolves to it. Of a path with a name
/// that no request may hold, such as one with a backslash, nothing is said.
pub proof fn a_relative_path_leads_back(root: Seq<char>, p: Seq<char>)
    requires
        canonical(root),
        canonical(p),
        inside(root, p),
        forall|i: int|
            components(root).len() <= i < components(p).len() ==> plain(
                #[trigger] components(p)[i],
            ),
    ensures
        plain_request(below(root, p)),
        pointed(root, below(root, p)) == p,
        resolved(root, below(root, p), Some(p)) == Ok::<Seq<char>, PathError>(p),
{
    let n = components(root).len() as int;
    let parts = components(p).skip(n);
    assert(components(p) =~= components(root) + parts);
    assert forall|i: int| 0 <= i < parts.len() implies plain(#[trigger] parts[i]) by {
        assert(plain(components(p)[n + i]));
    }
    lemma_below(root, p);
    lemma_names_lead_back(root, p, parts);
}

proof fn lemma_components_of_two(a: Seq<Seq<char>>, b: Seq<Seq<char>>)
    ensures
        (a + b).filter(|s: Seq<char>| names(s)) == a.filter(|s: Seq<char>| names(s)) + b.filter(
            |s: Seq<char>| names(s),
        ),
    decreases b.len(),
{
    let f = |s: Seq<char>| names(s);
    reveal(Seq::filter);
    if b.len() == 0 {
        assert(a + b =~= a);
        assert(a.filter(f) + b.filter(f) =~= a.filter(f));
    } else {
        lemma_components_of_two(a, b.drop_last());
        assert((a + b).drop_last() =~= a + b.drop_last());
        assert((a + b).last() == b.last());
        assert((a + b).filter(f) =~= a.filter(f) + b.filter(f));
    }
}

proof fn lemma_join_of_two(a: Seq<Seq<char>>, b: Seq<Seq<char>>)
    requires
        a.len() > 0,
        b.len() > 0,
    ensures
        text::join(a + b, "/"@) == text::join(a, "/"@) + "/"@ + text::join(b, "/"@),
    decreases b.len(),
{
    let d = b.drop_last();
    assert((a + b).drop_last() =~= a + d);
    assert((a + b).last() == b.last());
    if d.len() == 0 {
        assert(a + d =~= a);
        assert(text::join(b, "/"@) == b.last());
    } else {
        lemma_join_of_two(a, d);
        assert(text::join(a + b, "/"@) =~= text::join(a, "/"@) + "/"@ + (text::join(d, "/"@) + "/"@
            + b.last()));
    }
}

/// What is inside a root, as the filesystem writes paths: the root itself, and
/// whatever goes on from it with a slash. A name that only begins as the root's
/// does is outside.
pub proof fn inside_is_at_or_below_the_root(root: Seq<char>, p: Seq<char>)
    requires
        canonical(root),
        canonical(p),
        root != "/"@,
    ensures
        inside(root, p) <==> p == root || (p.len() > root.len() && p.take(root.len() as int + 1)
            == root + "/"@),
{
    reveal_strlit("/");
    lemma_components(root);
    lemma_components(p);
    let c = components(root);
    if c.len() == 0 {
        assert(root =~= "/"@);
    }
    if inside(root, p) && p != root {
        let parts = components(p).skip(c.len() as int);
        assert(components(p) =~= c + parts);
        if parts.len() == 0 {
            assert(components(p) =~= c);
        }
        lemma_join_of_two(c, parts);
        assert(p =~= root + "/"@ + text::join(parts, "/"@));
        assert(p.take(root.len() as int + 1) =~= root + "/"@);
    }
    if p.len() > root.len() && p.take(root.len() as int + 1) == root + "/"@ {
        let rest = p.skip(root.len() as int + 1);
        assert(root.push('/') =~= root + "/"@);
        assert(p =~= root.push('/') + rest);
        text::lemma_split_join(root, '/', rest);
        lemma_components_of_two(text::split(root, '/'), text::split(rest, '/'));
        let more = text::split(rest, '/').filter(|s: Seq<char>| names(s));
        assert(components(p) == c + more);
        assert(components(p).take(c.len() as int) =~= c);
        assert(p[0] == p.take(root.len() as int + 1)[0]);
    }
    if p == root {
        assert(c.take(c.len() as int) =~= c);
    }
}

/// What resolves: a request of plain names that leads to something inside the
/// root. One that is not plain is refused before anything is looked at.
pub proof fn what_resolves_is_plain_and_inside(
    root: Seq<char>,
    relative: Seq<char>,
    led: Option<Seq<char>>,
)
    ensures
        resolved(root, relative, led) is Ok <==> plain_request(relative) && led is Some && inside(
            root,
            led->0,
        ),
        resolved(root, relative, led) == Err::<Seq<char>, PathError>(PathError::InvalidComponent)
            <==> !plain_request(relative),
        resolved(root, relative, led) == Err::<Seq<char>, PathError>(PathError::NotFound) <==>
            plain_request(relative) && led is None,
        resolved(root, relative, led) == Err::<Seq<char>, PathError>(PathError::Escapes) <==>
            plain_request(relative) && led is Some && !inside(root, led->0),
{
}

/// A request is plain exactly where none of its parts goes up and nowhere in it
/// stands a backslash or a NUL.
pub proof fn a_plain_request_goes_only_down(relative: Seq<char>)
    ensures
        plain_request(relative) <==> {
            &&& !text::split(relative, '/').contains(".."@)
            &&& forall|i: int, j: int|
                0 <= i < text::split(relative, '/').len() && 0 <= j < text::split(
                    relative,
                    '/',
                )[i].len() ==> #[trigger] text::split(relative, '/')[i][j] != '\\'
                    && text::split(relative, '/')[i][j] != '\0'
        },
{
    reveal_strlit("..");
    reveal_strlit(".");
    let s = text::split(relative, '/');
    text::lemma_split(relative, '/');
    if plain_request(relative) {
        assert(!s.contains(".."@)) by {
            if s.contains(".."@) {
                let i = choose|i: int| 0 <= i < s.len() && s[i] == ".."@;
                assert(names(s[i]));
            }
        }
        assert forall|i: int, j: int| 0 <= i < s.len() && 0 <= j < s[i].len() implies #[trigger] s[i][j]
            != '\\' && s[i][j] != '\0' by {
            if names(s[i]) {
                assert(plain(s[i]));
                assert(s[i].contains(s[i][j]));
            } else {
                assert(s[i] == "."@);
            }
        }
    }
    if !s.contains(".."@) && (forall|i: int, j: int|
        0 <= i < s.len() && 0 <= j < s[i].len() ==> #[trigger] s[i][j] != '\\' && s[i][j] != '\0') {
        assert forall|i: int| 0 <= i < s.len() implies !names(#[trigger] s[i]) || plain(s[i]) by {
            assert(s.contains(s[i]));
            assert(!s[i].contains('\\'));
            assert(!s[i].contains('\0'));
            assert(!s[i].contains('/'));
        }
    }
}

/// A path for something new is taken where it is relative, starts with a name,
/// never goes up and holds no NUL.
pub proof fn a_new_path_is_relative_and_goes_down(relative: Seq<char>, name: Seq<char>)
    requires
        name.len() > 0,
        name != "."@,
        name != ".."@,
        !name.contains('/'),
        !name.contains('\0'),
    ensures
        safe_new(name),
        safe_new(relative) ==> !absolute(relative) && relative.len() > 0,
        !safe_new("/"@ + relative),
        !safe_new(seq![]),
        !safe_new("../"@ + relative),
        !safe_new(name + "/.."@),
{
    reveal_strlit("/");
    reveal_strlit(".");
    reveal_strlit("..");
    reveal_strlit("../");
    reveal_strlit("/..");
    text::lemma_split_one(name, '/');
    assert(text::split(name, '/')[0] == name);
    if name[0] == '/' {
        assert(name.contains(name[0]));
    }
    assert(!text::split(name, '/').contains(".."@)) by {
        if text::split(name, '/').contains(".."@) {
            assert(text::split(name, '/')[0] == ".."@);
        }
    }
    assert(!".."@.contains('/'));
    assert("../"@ + relative =~= ".."@.push('/') + relative);
    text::lemma_split_cons(".."@, '/', relative);
    assert(text::split("../"@ + relative, '/')[0] == ".."@);
    assert(name + "/.."@ =~= name.push('/') + ".."@);
    text::lemma_split_cons(name, '/', ".."@);
    text::lemma_split_one(".."@, '/');
    assert(text::split(name + "/.."@, '/')[1] == ".."@);
    assert(("/"@ + relative)[0] == '/');
}

} // verus!

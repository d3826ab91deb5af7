//! Text as sequences of characters: searching, splitting, trimming, numbers.
//!
//! The specification functions here say what each operation means on a
//! `Seq<char>`; every other module states its parsing and rendering in them.

use vstd::prelude::*;

verus! {

/// `String::push` appends one character.
pub assume_specification[ String::push ](s: &mut String, c: char)
    ensures
        final(s)@ == old(s)@.push(c),
;

// ---------------------------------------------------------------------------
// What the operations mean
// ---------------------------------------------------------------------------

/// What `String::from_utf8_lossy` makes of bytes.
pub uninterp spec fn lossy(bytes: Seq<u8>) -> Seq<char>;

/// `String::from_utf8_lossy`: the text of the bytes, each part that is not
/// UTF-8 replaced; so of bytes that are UTF-8, the characters that they encode.
#[verifier::external_body]
pub(crate) fn from_utf8_lossy(bytes: &[u8]) -> (r: String)
    ensures
        r@ == lossy(bytes@),
        vstd::utf8::valid_utf8(bytes@) ==> r@ == vstd::utf8::decode_utf8(bytes@),
{
    String::from_utf8_lossy(bytes).into_owned()
}

/// `std::str::from_utf8`: the text of bytes that are UTF-8, and nothing for any
/// others.
#[verifier::external_body]
pub(crate) fn from_utf8(bytes: &[u8]) -> (r: Option<String>)
    ensures
        match r {
            Some(s) => vstd::utf8::valid_utf8(bytes@) && s@ == vstd::utf8::decode_utf8(bytes@),
            None => !vstd::utf8::valid_utf8(bytes@),
        },
{
    std::str::from_utf8(bytes).ok().map(|s| s.to_string())
}

/// A text as std's `Debug` writes it.
pub uninterp spec fn debugged(s: Seq<char>) -> Seq<char>;

/// `format!` with `{:?}` on a text: what std's `Debug` of `str` writes, which is
/// the text between quotes with backslash escapes. Only that it is a function of
/// the text is claimed; which characters are escaped is left unsaid, since std
/// decides it by its tables of what can be printed.
#[verifier::external_body]
pub(crate) fn debug_form(s: &str) -> (r: String)
    ensures
        r@ == debugged(s@),
{
    format!("{s:?}")
}

/// The views of a sequence of strings.
pub open spec fn strs(v: Seq<String>) -> Seq<Seq<char>> {
    v.map_values(|s: String| s@)
}

/// The views of a sequence of string slices.
pub open spec fn lits(v: Seq<&str>) -> Seq<Seq<char>> {
    v.map_values(|s: &str| s@)
}

/// The view of an optional string.
pub open spec fn opt(o: Option<String>) -> Option<Seq<char>> {
    match o {
        Some(s) => Some(s@),
        None => None,
    }
}

/// `p` stands in `s` at index `i`.
pub open spec fn at(s: Seq<char>, p: Seq<char>, i: int) -> bool {
    0 <= i && i + p.len() <= s.len() && s.subrange(i, i + p.len()) == p
}

pub open spec fn starts(s: Seq<char>, p: Seq<char>) -> bool {
    at(s, p, 0)
}

pub open spec fn ends(s: Seq<char>, p: Seq<char>) -> bool {
    at(s, p, s.len() - p.len())
}

/// What follows the prefix `p`, where `s` starts with it.
pub open spec fn after(s: Seq<char>, p: Seq<char>) -> Option<Seq<char>> {
    if starts(s, p) {
        Some(s.skip(p.len() as int))
    } else {
        None
    }
}

/// What stands before the suffix `p`, where `s` ends with it.
pub open spec fn before(s: Seq<char>, p: Seq<char>) -> Option<Seq<char>> {
    if ends(s, p) {
        Some(s.take(s.len() - p.len()))
    } else {
        None
    }
}

/// The index of the first `c` in `s`, or the length of `s` where there is none.
pub open spec fn pos(s: Seq<char>, c: char) -> int
    decreases s.len(),
{
    if s.len() == 0 {
        0
    } else if s[0] == c {
        0
    } else {
        1 + pos(s.skip(1), c)
    }
}

/// The index of the last `c` in `s`, or -1 where there is none.
pub open spec fn rpos(s: Seq<char>, c: char) -> int
    decreases s.len(),
{
    if s.len() == 0 {
        -1
    } else if s.last() == c {
        s.len() - 1
    } else {
        rpos(s.drop_last(), c)
    }
}

/// The index of the first occurrence of `p` in `s`, if there is one.
pub open spec fn find(s: Seq<char>, p: Seq<char>) -> Option<int>
    decreases s.len(),
{
    if starts(s, p) {
        Some(0)
    } else if s.len() == 0 {
        None
    } else {
        match find(s.skip(1), p) {
            Some(i) => Some(i + 1),
            None => None,
        }
    }
}

/// `p` occurs in `s`.
pub open spec fn within(s: Seq<char>, p: Seq<char>) -> bool {
    exists|i: int| at(s, p, i)
}

/// The pieces of `s` between the occurrences of `c`; there is always one.
pub open spec fn split(s: Seq<char>, c: char) -> Seq<Seq<char>>
    decreases s.len(),
{
    let i = pos(s, c);
    if 0 <= i < s.len() {
        seq![s.take(i)] + split(s.skip(i + 1), c)
    } else {
        seq![s]
    }
}

/// The two sides of the first `c` in `s`.
pub open spec fn split_once(s: Seq<char>, c: char) -> Option<(Seq<char>, Seq<char>)> {
    let i = pos(s, c);
    if i < s.len() {
        Some((s.take(i), s.skip(i + 1)))
    } else {
        None
    }
}

/// The two sides of the last `c` in `s`.
pub open spec fn rsplit_once(s: Seq<char>, c: char) -> Option<(Seq<char>, Seq<char>)> {
    let i = rpos(s, c);
    if i >= 0 {
        Some((s.take(i), s.skip(i + 1)))
    } else {
        None
    }
}

/// The pieces put together with `sep` between each two.
pub open spec fn join(parts: Seq<Seq<char>>, sep: Seq<char>) -> Seq<char>
    decreases parts.len(),
{
    if parts.len() == 0 {
        seq![]
    } else if parts.len() == 1 {
        parts[0]
    } else {
        join(parts.drop_last(), sep) + sep + parts.last()
    }
}

/// Unicode's `White_Space` property.
pub open spec fn is_space(c: char) -> bool {
    let n = c as u32;
    ||| 0x09 <= n <= 0x0d
    ||| n == 0x20
    ||| n == 0x85
    ||| n == 0xa0
    ||| n == 0x1680
    ||| 0x2000 <= n <= 0x200a
    ||| n == 0x2028
    ||| n == 0x2029
    ||| n == 0x202f
    ||| n == 0x205f
    ||| n == 0x3000
}

/// How many characters at the start of `s` are white space.
pub open spec fn lead(s: Seq<char>) -> int
    decreases s.len(),
{
    if s.len() > 0 && is_space(s[0]) {
        1 + lead(s.skip(1))
    } else {
        0
    }
}

/// How many characters of `s` come before its first white space.
pub open spec fn run(s: Seq<char>) -> int
    decreases s.len(),
{
    if s.len() > 0 && !is_space(s[0]) {
        1 + run(s.skip(1))
    } else {
        0
    }
}

/// `s` without the slashes at its start.
pub open spec fn unslashed(s: Seq<char>) -> Seq<char>
    decreases s.len(),
{
    if s.len() > 0 && s[0] == '/' {
        unslashed(s.skip(1))
    } else {
        s
    }
}

pub open spec fn trim_start(s: Seq<char>) -> Seq<char> {
    s.skip(lead(s))
}

pub open spec fn trim_end(s: Seq<char>) -> Seq<char>
    decreases s.len(),
{
    if s.len() > 0 && is_space(s.last()) {
        trim_end(s.drop_last())
    } else {
        s
    }
}

pub open spec fn trim(s: Seq<char>) -> Seq<char> {
    trim_end(trim_start(s))
}

/// The maximal runs of characters that are not white space, in order.
pub open spec fn words(s: Seq<char>) -> Seq<Seq<char>>
    decreases s.len(),
{
    let l = lead(s);
    if !(0 <= l < s.len()) {
        seq![]
    } else {
        let t = s.skip(l);
        let n = run(t);
        if 0 < n <= t.len() {
            seq![t.take(n)] + words(t.skip(n))
        } else {
            seq![]
        }
    }
}

/// The lines of `s`: each ends at a line feed, which is not part of it, nor is
/// a carriage return before it; what follows the last line feed is a line
/// where it is not empty.
pub open spec fn lines(s: Seq<char>) -> Seq<Seq<char>>
    decreases s.len(),
{
    let i = pos(s, '\n');
    if 0 <= i < s.len() {
        seq![chomp(s.take(i))] + lines(s.skip(i + 1))
    } else if s.len() == 0 {
        seq![]
    } else {
        seq![s]
    }
}

/// `s` without one carriage return at its end.
pub open spec fn chomp(s: Seq<char>) -> Seq<char> {
    if s.len() > 0 && s.last() == '\r' {
        s.drop_last()
    } else {
        s
    }
}

pub open spec fn is_digit(c: char) -> bool {
    '0' <= c <= '9'
}

pub open spec fn all_digits(s: Seq<char>) -> bool {
    forall|i: int| 0 <= i < s.len() ==> is_digit(#[trigger] s[i])
}

/// The number that a run of decimal digits writes.
pub open spec fn dec_val(s: Seq<char>) -> nat
    decreases s.len(),
{
    if s.len() == 0 {
        0
    } else {
        dec_val(s.drop_last()) * 10 + ((s.last() as int - '0' as int) as nat)
    }
}

/// The decimal digits of `n`, without leading zeros.
pub open spec fn dec(n: nat) -> Seq<char>
    decreases n,
{
    if n < 10 {
        seq![(48 + n) as char]
    } else {
        dec(n / 10).push((48 + n % 10) as char)
    }
}

/// The digits of `s`: all of it, or what follows one leading plus sign.
pub open spec fn unsigned(s: Seq<char>) -> Seq<char> {
    if s.len() > 0 && s[0] == '+' {
        s.skip(1)
    } else {
        s
    }
}

/// How many characters at the start of `s` are decimal digits.
pub open spec fn digit_run(s: Seq<char>) -> int
    decreases s.len(),
{
    if s.len() > 0 && is_digit(s[0]) {
        1 + digit_run(s.skip(1))
    } else {
        0
    }
}

/// What `str::parse` gives for an unsigned integer type whose largest value is
/// `max`: one or more decimal digits, an optional plus sign before them.
pub open spec fn number(s: Seq<char>, max: nat) -> Option<nat> {
    let d = unsigned(s);
    if d.len() > 0 && all_digits(d) && dec_val(d) <= max {
        Some(dec_val(d))
    } else {
        None
    }
}

/// The lower-case hexadecimal digit of `n`, which is below sixteen.
pub open spec fn hex_digit(n: int) -> char {
    if n < 10 {
        (48 + n) as char
    } else {
        (87 + n) as char
    }
}

/// Two lower-case hexadecimal digits for each byte.
pub open spec fn hex_bytes(b: Seq<u8>) -> Seq<char>
    decreases b.len(),
{
    if b.len() == 0 {
        seq![]
    } else {
        hex_bytes(b.drop_last()).push(hex_digit(b.last() as int / 16)).push(
            hex_digit(b.last() as int % 16),
        )
    }
}

/// The hexadecimal digits of `n`, without leading zeros.
pub open spec fn hex(n: nat) -> Seq<char>
    decreases n,
{
    if n < 16 {
        seq![hex_digit(n as int)]
    } else {
        hex(n / 16).push(hex_digit((n % 16) as int))
    }
}

/// ASCII upper-case letters made lower case, everything else kept.
pub open spec fn lower_char(c: char) -> char {
    if 'A' <= c <= 'Z' {
        (c as u32 + 32) as char
    } else {
        c
    }
}

pub open spec fn lower(s: Seq<char>) -> Seq<char> {
    s.map_values(|c: char| lower_char(c))
}

/// The value of a hexadecimal digit of either case, or sixteen.
pub open spec fn hex_digit_val(c: char) -> nat {
    if '0' <= c <= '9' {
        (c as int - '0' as int) as nat
    } else if 'a' <= c <= 'f' {
        (c as int - 'a' as int + 10) as nat
    } else if 'A' <= c <= 'F' {
        (c as int - 'A' as int + 10) as nat
    } else {
        16
    }
}

pub open spec fn all_hex(s: Seq<char>) -> bool {
    forall|i: int| 0 <= i < s.len() ==> hex_digit_val(#[trigger] s[i]) < 16
}

/// The number that a run of hexadecimal digits writes.
pub open spec fn hex_val(s: Seq<char>) -> nat
    decreases s.len(),
{
    if s.len() == 0 {
        0
    } else {
        hex_val(s.drop_last()) * 16 + hex_digit_val(s.last())
    }
}

/// What `from_str_radix(_, 16)` gives for an unsigned integer type whose
/// largest value is `max`.
pub open spec fn hex_number(s: Seq<char>, max: nat) -> Option<nat> {
    let d = unsigned(s);
    if d.len() > 0 && all_hex(d) && hex_val(d) <= max {
        Some(hex_val(d))
    } else {
        None
    }
}

/// Every occurrence of `p`, taken from the left, replaced by `q`.
pub open spec fn replace(s: Seq<char>, p: Seq<char>, q: Seq<char>) -> Seq<char>
    decreases s.len(),
{
    match find(s, p) {
        Some(i) => if p.len() > 0 && 0 <= i && i + p.len() <= s.len() {
            s.take(i) + q + replace(s.skip(i + p.len()), p, q)
        } else {
            s
        },
        None => s,
    }
}

/// A path under another, as `Path::join` puts them together: an absolute path
/// stands alone, and no second slash follows one that is there.
pub open spec fn under(dir: Seq<char>, name: Seq<char>) -> Seq<char> {
    if dir.len() == 0 || (name.len() > 0 && name[0] == '/') {
        name
    } else if dir.last() == '/' {
        dir + name
    } else {
        dir.push('/') + name
    }
}

// ---------------------------------------------------------------------------
// Facts
// ---------------------------------------------------------------------------

pub proof fn lemma_pos(s: Seq<char>, c: char)
    ensures
        0 <= pos(s, c) <= s.len(),
        forall|j: int| 0 <= j < pos(s, c) ==> s[j] != c,
        pos(s, c) < s.len() ==> s[pos(s, c)] == c,
        pos(s, c) < s.len() <==> s.contains(c),
    decreases s.len(),
{
    if s.len() > 0 && s[0] != c {
        let t = s.skip(1);
        lemma_pos(t, c);
        assert forall|j: int| 0 <= j < pos(s, c) implies s[j] != c by {
            if j > 0 {
                assert(t[j - 1] == s[j]);
            }
        }
    }
    if s.contains(c) {
        let k = choose|k: int| 0 <= k < s.len() && s[k] == c;
        assert(pos(s, c) <= k);
    }
}

/// An index with the properties of the first occurrence is the first occurrence.
pub proof fn lemma_pos_is(s: Seq<char>, c: char, i: int)
    requires
        0 <= i <= s.len(),
        forall|j: int| 0 <= j < i ==> s[j] != c,
        i < s.len() ==> s[i] == c,
    ensures
        pos(s, c) == i,
{
    lemma_pos(s, c);
}

pub proof fn lemma_rpos(s: Seq<char>, c: char)
    ensures
        -1 <= rpos(s, c) < s.len(),
        forall|j: int| rpos(s, c) < j < s.len() ==> s[j] != c,
        rpos(s, c) >= 0 ==> s[rpos(s, c)] == c,
    decreases s.len(),
{
    if s.len() > 0 && s.last() != c {
        lemma_rpos(s.drop_last(), c);
        assert forall|j: int| rpos(s, c) < j < s.len() implies s[j] != c by {
            if j < s.len() - 1 {
                assert(s.drop_last()[j] == s[j]);
            }
        }
    }
}

pub proof fn lemma_rpos_is(s: Seq<char>, c: char, i: int)
    requires
        -1 <= i < s.len(),
        forall|j: int| i < j < s.len() ==> s[j] != c,
        i >= 0 ==> s[i] == c,
    ensures
        rpos(s, c) == i,
{
    lemma_rpos(s, c);
}

pub proof fn lemma_find(s: Seq<char>, p: Seq<char>)
    ensures
        find(s, p) matches Some(i) ==> at(s, p, i) && forall|j: int| 0 <= j < i ==> !at(s, p, j),
        find(s, p) is None ==> forall|j: int| !at(s, p, j),
        find(s, p) is Some <==> within(s, p),
    decreases s.len(),
{
    if starts(s, p) {
        assert(at(s, p, 0));
    } else if s.len() == 0 {
        assert forall|j: int| !at(s, p, j) by {
            if at(s, p, j) {
                assert(j == 0);
            }
        }
    } else {
        let t = s.skip(1);
        lemma_find(t, p);
        assert forall|j: int| j != -1 implies at(s, p, j + 1) == #[trigger] at(t, p, j) by {
            if 0 <= j && j + p.len() <= t.len() {
                assert(s.subrange(j + 1, j + 1 + p.len()) =~= t.subrange(j, j + p.len()));
            }
        }
        match find(t, p) {
            Some(i) => {
                assert(at(t, p, i));
                assert(at(s, p, i + 1));
                assert forall|j: int| 0 <= j < i + 1 implies !at(s, p, j) by {
                    if j > 0 {
                        assert(!at(t, p, j - 1));
                    }
                }
            },
            None => {
                assert forall|j: int| !at(s, p, j) by {
                    if j != 0 {
                        assert(!at(t, p, j - 1));
                    }
                }
            },
        }
    }
}

pub proof fn lemma_find_is(s: Seq<char>, p: Seq<char>, i: int)
    requires
        at(s, p, i),
        forall|j: int| 0 <= j < i ==> !at(s, p, j),
    ensures
        find(s, p) == Some(i),
{
    lemma_find(s, p);
    let k = find(s, p)->0;
    assert(at(s, p, k));
    if k < i {
        assert(!at(s, p, k));
    }
}

/// Splitting never gives nothing, and its pieces do not hold the separator.
pub proof fn lemma_split(s: Seq<char>, c: char)
    ensures
        split(s, c).len() >= 1,
        forall|k: int, j: int|
            0 <= k < split(s, c).len() && 0 <= j < split(s, c)[k].len() ==> #[trigger] split(
                s,
                c,
            )[k][j] != c,
    decreases s.len(),
{
    lemma_pos(s, c);
    let i = pos(s, c);
    if i < s.len() {
        let t = s.skip(i + 1);
        lemma_split(t, c);
        assert forall|k: int, j: int|
            0 <= k < split(s, c).len() && 0 <= j < split(s, c)[k].len() implies #[trigger] split(
            s,
            c,
        )[k][j] != c by {
            if k > 0 {
                assert(split(s, c)[k] == split(t, c)[k - 1]);
            }
        }
    }
}

/// A piece without the separator, put before the separator and a rest, is the
/// first piece.
pub proof fn lemma_split_cons(a: Seq<char>, c: char, rest: Seq<char>)
    requires
        !a.contains(c),
    ensures
        split(a.push(c) + rest, c) == seq![a] + split(rest, c),
{
    let s = a.push(c) + rest;
    assert(s[a.len() as int] == c);
    assert forall|j: int| 0 <= j < a.len() implies s[j] != c by {
        assert(s[j] == a[j]);
    }
    lemma_pos_is(s, c, a.len() as int);
    assert(s.take(a.len() as int) =~= a);
    assert(s.skip(a.len() as int + 1) =~= rest);
}

/// Splitting at a separator that stands between two texts splits the two.
pub proof fn lemma_split_join(a: Seq<char>, c: char, b: Seq<char>)
    ensures
        split(a.push(c) + b, c) == split(a, c) + split(b, c),
    decreases a.len(),
{
    lemma_pos(a, c);
    let i = pos(a, c);
    if i < a.len() {
        let h = a.take(i);
        let t = a.skip(i + 1);
        assert(!h.contains(c));
        assert(a =~= h.push(c) + t);
        assert(a.push(c) + b =~= h.push(c) + (t.push(c) + b));
        lemma_split_cons(h, c, t.push(c) + b);
        lemma_split_join(t, c, b);
        assert(seq![h] + (split(t, c) + split(b, c)) =~= (seq![h] + split(t, c)) + split(b, c));
    } else {
        lemma_split_cons(a, c, b);
    }
}

pub proof fn lemma_split_one(a: Seq<char>, c: char)
    requires
        !a.contains(c),
    ensures
        split(a, c) == seq![a],
{
    lemma_pos(a, c);
}

pub proof fn lemma_lead(s: Seq<char>)
    ensures
        0 <= lead(s) <= s.len(),
        forall|j: int| 0 <= j < lead(s) ==> is_space(s[j]),
        lead(s) < s.len() ==> !is_space(s[lead(s)]),
    decreases s.len(),
{
    if s.len() > 0 && is_space(s[0]) {
        let t = s.skip(1);
        lemma_lead(t);
        assert forall|j: int| 0 <= j < lead(s) implies is_space(s[j]) by {
            if j > 0 {
                assert(t[j - 1] == s[j]);
            }
        }
    }
}

pub proof fn lemma_lead_is(s: Seq<char>, i: int)
    requires
        0 <= i <= s.len(),
        forall|j: int| 0 <= j < i ==> is_space(s[j]),
        i < s.len() ==> !is_space(s[i]),
    ensures
        lead(s) == i,
{
    lemma_lead(s);
}

pub proof fn lemma_run(s: Seq<char>)
    ensures
        0 <= run(s) <= s.len(),
        forall|j: int| 0 <= j < run(s) ==> !is_space(s[j]),
        run(s) < s.len() ==> is_space(s[run(s)]),
    decreases s.len(),
{
    if s.len() > 0 && !is_space(s[0]) {
        let t = s.skip(1);
        lemma_run(t);
        assert forall|j: int| 0 <= j < run(s) implies !is_space(s[j]) by {
            if j > 0 {
                assert(t[j - 1] == s[j]);
            }
        }
    }
}

pub proof fn lemma_run_is(s: Seq<char>, i: int)
    requires
        0 <= i <= s.len(),
        forall|j: int| 0 <= j < i ==> !is_space(s[j]),
        i < s.len() ==> is_space(s[i]),
    ensures
        run(s) == i,
{
    lemma_run(s);
}

/// Trimming the end keeps a prefix, drops white space only, and leaves none.
pub proof fn lemma_trim_end(s: Seq<char>)
    ensures
        trim_end(s).len() <= s.len(),
        trim_end(s) == s.take(trim_end(s).len() as int),
        forall|j: int| trim_end(s).len() <= j < s.len() ==> is_space(s[j]),
        trim_end(s).len() > 0 ==> !is_space(trim_end(s).last()),
    decreases s.len(),
{
    if s.len() > 0 && is_space(s.last()) {
        let t = s.drop_last();
        lemma_trim_end(t);
        assert(t.take(trim_end(t).len() as int) =~= s.take(trim_end(t).len() as int));
        assert forall|j: int| trim_end(s).len() <= j < s.len() implies is_space(s[j]) by {
            if j < s.len() - 1 {
                assert(t[j] == s[j]);
            }
        }
    } else {
        assert(s.take(s.len() as int) =~= s);
    }
}

pub proof fn lemma_trim_end_is(s: Seq<char>, i: int)
    requires
        0 <= i <= s.len(),
        forall|j: int| i <= j < s.len() ==> is_space(s[j]),
        i > 0 ==> !is_space(s[i - 1]),
    ensures
        trim_end(s) == s.take(i),
{
    lemma_trim_end(s);
    let n = trim_end(s).len() as int;
    if n > 0 {
        assert(trim_end(s).last() == s[n - 1]);
    }
    if n < i {
        assert(is_space(s[i - 1]));
    }
    if i < n {
        assert(is_space(s[n - 1]));
    }
}

/// Nothing is trimmed where neither end is white space.
pub proof fn lemma_trim_id(s: Seq<char>)
    requires
        s.len() > 0 ==> !is_space(s[0]) && !is_space(s.last()),
    ensures
        trim(s) == s,
{
    assert(s.skip(0) =~= s);
}

/// Decimal rendering and reading undo each other.
pub proof fn lemma_dec(n: nat)
    ensures
        dec(n).len() > 0,
        all_digits(dec(n)),
        dec_val(dec(n)) == n,
        n > 0 ==> dec(n)[0] != '0',
    decreases n,
{
    if n < 10 {
        let d = dec(n);
        assert(d.len() == 1);
        assert(d.drop_last() =~= seq![]);
        assert(dec_val(d.drop_last()) == 0);
    } else {
        lemma_dec(n / 10);
        let d = dec(n);
        assert(d.drop_last() =~= dec(n / 10));
        assert forall|i: int| 0 <= i < d.len() implies is_digit(#[trigger] d[i]) by {
            if i < d.len() - 1 {
                assert(d[i] == dec(n / 10)[i]);
            }
        }
        assert(d[0] == dec(n / 10)[0]);
    }
}

pub proof fn lemma_number_dec(n: nat, max: nat)
    requires
        n <= max,
    ensures
        number(dec(n), max) == Some(n),
{
    lemma_dec(n);
    assert(is_digit(dec(n)[0]));
}

/// Two numbers with the same digits are equal.
pub proof fn lemma_dec_injective(a: nat, b: nat)
    requires
        dec(a) == dec(b),
    ensures
        a == b,
{
    lemma_dec(a);
    lemma_dec(b);
}

/// What a run of digits writes is not less for a digit more.
pub proof fn lemma_dec_val_grows(s: Seq<char>, i: int)
    requires
        0 <= i <= s.len(),
        all_digits(s),
    ensures
        dec_val(s.take(i)) <= dec_val(s),
    decreases s.len() - i,
{
    if i < s.len() {
        lemma_dec_val_grows(s, i + 1);
        let t = s.take(i + 1);
        assert(t.drop_last() =~= s.take(i));
        assert(is_digit(s[i]));
    } else {
        assert(s.take(i) =~= s);
    }
}

pub proof fn lemma_digit_run(s: Seq<char>)
    ensures
        0 <= digit_run(s) <= s.len(),
        forall|j: int| 0 <= j < digit_run(s) ==> is_digit(s[j]),
        digit_run(s) < s.len() ==> !is_digit(s[digit_run(s)]),
    decreases s.len(),
{
    if s.len() > 0 && is_digit(s[0]) {
        let t = s.skip(1);
        lemma_digit_run(t);
        assert forall|j: int| 0 <= j < digit_run(s) implies is_digit(s[j]) by {
            if j > 0 {
                assert(t[j - 1] == s[j]);
            }
        }
    }
}

pub proof fn lemma_digit_run_is(s: Seq<char>, i: int)
    requires
        0 <= i <= s.len(),
        forall|j: int| 0 <= j < i ==> is_digit(s[j]),
        i < s.len() ==> !is_digit(s[i]),
    ensures
        digit_run(s) == i,
{
    lemma_digit_run(s);
}

pub proof fn lemma_hex_val_grows(s: Seq<char>, i: int)
    requires
        0 <= i <= s.len(),
    ensures
        hex_val(s.take(i)) <= hex_val(s),
    decreases s.len() - i,
{
    if i < s.len() {
        lemma_hex_val_grows(s, i + 1);
        let t = s.take(i + 1);
        assert(t.drop_last() =~= s.take(i));
    } else {
        assert(s.take(i) =~= s);
    }
}

/// Equal lengths follow from equal hexadecimal, and so do equal bytes.
pub proof fn lemma_hex_bytes(b: Seq<u8>)
    ensures
        hex_bytes(b).len() == 2 * b.len(),
        forall|i: int|
            0 <= i < b.len() ==> hex_bytes(b)[2 * i] == hex_digit(#[trigger] b[i] as int / 16)
                && hex_bytes(b)[2 * i + 1] == hex_digit(b[i] as int % 16),
    decreases b.len(),
{
    if b.len() > 0 {
        lemma_hex_bytes(b.drop_last());
        assert forall|i: int| 0 <= i < b.len() implies hex_bytes(b)[2 * i] == hex_digit(
            #[trigger] b[i] as int / 16,
        ) && hex_bytes(b)[2 * i + 1] == hex_digit(b[i] as int % 16) by {
            if i < b.len() - 1 {
                assert(b.drop_last()[i] == b[i]);
            }
        }
    }
}

/// What a filter keeps of one element more.
pub proof fn lemma_filter_next<A>(s: Seq<A>, keep: spec_fn(A) -> bool, i: int)
    requires
        0 <= i < s.len(),
    ensures
        s.take(i + 1).filter(keep) == (if keep(s[i]) {
            s.take(i).filter(keep).push(s[i])
        } else {
            s.take(i).filter(keep)
        }),
{
    let t = s.take(i + 1);
    assert(t.drop_last() =~= s.take(i));
    assert(t.last() == s[i]);
    reveal(Seq::filter);
}

pub proof fn lemma_filter_none<A>(s: Seq<A>, keep: spec_fn(A) -> bool)
    ensures
        s.take(0).filter(keep) == Seq::<A>::empty(),
{
    reveal(Seq::filter);
}

/// What a filter keeps of a first text and more is what it keeps of each.
pub proof fn lemma_filter_cons(x: Seq<char>, s: Seq<Seq<char>>, f: spec_fn(Seq<char>) -> bool)
    ensures
        (seq![x] + s).filter(f) == (if f(x) {
            seq![x] + s.filter(f)
        } else {
            s.filter(f)
        }),
    decreases s.len(),
{
    reveal(Seq::filter);
    let t = seq![x] + s;
    if s.len() == 0 {
        let none = Seq::<Seq<char>>::empty();
        assert(s =~= none);
        assert(t.drop_last() =~= none);
        assert(none.filter(f) =~= none);
        assert(t.last() == x);
        assert(t.filter(f) =~= if f(x) {
            seq![x] + s.filter(f)
        } else {
            s.filter(f)
        });
    } else {
        lemma_filter_cons(x, s.drop_last(), f);
        assert(t.drop_last() =~= seq![x] + s.drop_last());
        assert(t.last() == s.last());
        assert(t.filter(f) =~= if f(x) {
            seq![x] + s.filter(f)
        } else {
            s.filter(f)
        });
    }
}

pub proof fn lemma_strs_push(v: Seq<String>, s: String)
    ensures
        strs(v.push(s)) == strs(v).push(s@),
{
    assert(strs(v.push(s)) =~= strs(v).push(s@));
}

// ---------------------------------------------------------------------------
// The operations
// ---------------------------------------------------------------------------

/// The characters of a string.
pub fn chars_of(s: &str) -> (r: Vec<char>)
    ensures
        r@ == s@,
{
    let mut out: Vec<char> = Vec::new();
    for c in it: s.chars()
        invariant
            it.seq() == s@,
            out@ == s@.take(it.index() as int),
    {
        out.push(c);
    }
    out
}

/// A string made of the given characters.
pub fn string_of(v: &[char]) -> (r: String)
    ensures
        r@ == v@,
{
    string_from(v, 0, v.len())
}

/// A string made of the characters from `a` up to `b`.
pub fn string_from(v: &[char], a: usize, b: usize) -> (r: String)
    requires
        a <= b <= v.len(),
    ensures
        r@ == v@.subrange(a as int, b as int),
{
    let mut out = String::new();
    let mut i: usize = a;
    while i < b
        invariant
            a <= i <= b <= v.len(),
            out@ == v@.subrange(a as int, i as int),
        decreases b - i,
    {
        out.push(v[i]);
        i += 1;
    }
    out
}

/// The characters of a slice from `a` up to `b`, as a vector.
pub fn part(v: &[char], a: usize, b: usize) -> (r: Vec<char>)
    requires
        a <= b <= v.len(),
    ensures
        r@ == v@.subrange(a as int, b as int),
{
    let mut out: Vec<char> = Vec::new();
    let mut i: usize = a;
    while i < b
        invariant
            a <= i <= b <= v.len(),
            out@ == v@.subrange(a as int, i as int),
        decreases b - i,
    {
        out.push(v[i]);
        i += 1;
    }
    out
}

pub fn same_chars(a: &[char], b: &[char]) -> (r: bool)
    ensures
        r == (a@ == b@),
{
    if a.len() != b.len() {
        return false;
    }
    let mut i: usize = 0;
    while i < a.len()
        invariant
            i <= a.len() == b.len(),
            forall|j: int| 0 <= j < i ==> a@[j] == b@[j],
        decreases a.len() - i,
    {
        if a[i] != b[i] {
            return false;
        }
        i += 1;
    }
    assert(a@ =~= b@);
    true
}

/// The two strings hold the same characters.
pub fn same(a: &str, b: &str) -> (r: bool)
    ensures
        r == (a@ == b@),
{
    let x = chars_of(a);
    let y = chars_of(b);
    same_chars(x.as_slice(), y.as_slice())
}

/// An owned copy of each of the strings.
pub fn copy_all(v: &Vec<String>) -> (r: Vec<String>)
    ensures
        strs(r@) == strs(v@),
        r@.len() == v@.len(),
{
    let mut out: Vec<String> = Vec::new();
    let mut i: usize = 0;
    while i < v.len()
        invariant
            i <= v.len(),
            out@.len() == i,
            strs(out@) == strs(v@).take(i as int),
        decreases v.len() - i,
    {
        out.push(v[i].clone());
        i += 1;
    }
    assert(strs(v@).take(v@.len() as int) =~= strs(v@));
    out
}

/// An owned copy of an optional string.
pub fn copy_opt(o: &Option<String>) -> (r: Option<String>)
    ensures
        opt(r) == opt(*o),
{
    match o {
        Some(s) => Some(s.clone()),
        None => None,
    }
}

/// `name` under the directory `dir`.
pub fn join_path(dir: &str, name: &str) -> (r: String)
    ensures
        r@ == under(dir@, name@),
{
    let d = chars_of(dir);
    let n = chars_of(name);
    if d.len() == 0 || (n.len() > 0 && n[0] == '/') {
        return name.to_string();
    }
    let mut out = dir.to_string();
    if d[d.len() - 1] != '/' {
        out.push('/');
    }
    out.append(name);
    out
}

/// Whether one of the strings is `s`.
pub fn any_same(v: &Vec<String>, s: &str) -> (r: bool)
    ensures
        r == strs(v@).contains(s@),
{
    let mut i: usize = 0;
    while i < v.len()
        invariant
            i <= v.len(),
            forall|j: int| 0 <= j < i ==> strs(v@)[j] != s@,
        decreases v.len() - i,
    {
        if same(v[i].as_str(), s) {
            assert(strs(v@)[i as int] == s@);
            return true;
        }
        i += 1;
    }
    false
}

/// Whether one of the listed words is `s`.
pub fn among(s: &str, words: &[&str]) -> (r: bool)
    ensures
        r == lits(words@).contains(s@),
{
    let mut i: usize = 0;
    while i < words.len()
        invariant
            i <= words.len(),
            forall|j: int| 0 <= j < i ==> lits(words@)[j] != s@,
        decreases words.len() - i,
    {
        if same(words[i], s) {
            assert(lits(words@)[i as int] == s@);
            return true;
        }
        i += 1;
    }
    false
}

/// Whether `p` stands in `s` at index `i`.
pub fn is_at(s: &[char], p: &[char], i: usize) -> (r: bool)
    ensures
        r == at(s@, p@, i as int),
{
    if i > s.len() || p.len() > s.len() - i {
        return false;
    }
    let mut k: usize = 0;
    while k < p.len()
        invariant
            k <= p.len(),
            i + p.len() <= s.len(),
            forall|j: int| 0 <= j < k ==> s@[i + j] == p@[j],
        decreases p.len() - k,
    {
        if s[i + k] != p[k] {
            assert(s@.subrange(i as int, i + p@.len())[k as int] != p@[k as int]);
            return false;
        }
        k += 1;
    }
    assert(s@.subrange(i as int, i + p@.len()) =~= p@);
    true
}

pub fn starts_with(s: &str, p: &str) -> (r: bool)
    ensures
        r == starts(s@, p@),
{
    let a = chars_of(s);
    let b = chars_of(p);
    is_at(a.as_slice(), b.as_slice(), 0)
}

pub fn ends_with(s: &str, p: &str) -> (r: bool)
    ensures
        r == ends(s@, p@),
{
    let a = chars_of(s);
    let b = chars_of(p);
    if b.len() > a.len() {
        return false;
    }
    is_at(a.as_slice(), b.as_slice(), a.len() - b.len())
}

pub fn strip_prefix(s: &str, p: &str) -> (r: Option<String>)
    ensures
        opt(r) == after(s@, p@),
{
    let a = chars_of(s);
    let b = chars_of(p);
    if is_at(a.as_slice(), b.as_slice(), 0) {
        assert(s@.skip(p@.len() as int) =~= s@.subrange(p@.len() as int, s@.len() as int));
        Some(string_from(a.as_slice(), b.len(), a.len()))
    } else {
        None
    }
}

pub fn strip_suffix(s: &str, p: &str) -> (r: Option<String>)
    ensures
        opt(r) == before(s@, p@),
{
    let a = chars_of(s);
    let b = chars_of(p);
    if b.len() > a.len() {
        return None;
    }
    if is_at(a.as_slice(), b.as_slice(), a.len() - b.len()) {
        assert(s@.take(s@.len() - p@.len()) =~= s@.subrange(0, s@.len() - p@.len()));
        Some(string_from(a.as_slice(), 0, a.len() - b.len()))
    } else {
        None
    }
}

/// The index of the first `c` at or after `from`, or the length.
pub fn pos_from(s: &[char], c: char, from: usize) -> (r: usize)
    requires
        from <= s.len(),
    ensures
        r == from + pos(s@.skip(from as int), c),
        from <= r <= s.len(),
{
    let ghost t = s@.skip(from as int);
    let mut i: usize = from;
    while i < s.len()
        invariant
            from <= i <= s.len(),
            t == s@.skip(from as int),
            forall|j: int| 0 <= j < i - from ==> t[j] != c,
        decreases s.len() - i,
    {
        if s[i] == c {
            proof {
                assert(t[i - from] == c);
                lemma_pos_is(t, c, i - from);
            }
            return i;
        }
        assert(t[i - from] == s@[i as int]);
        i += 1;
    }
    proof {
        lemma_pos_is(t, c, i - from);
    }
    i
}

pub fn pos_of(s: &[char], c: char) -> (r: usize)
    ensures
        r == pos(s@, c),
        r <= s.len(),
{
    assert(s@.skip(0) =~= s@);
    pos_from(s, c, 0)
}

/// The index of the last `c`, if there is one.
pub fn rpos_of(s: &[char], c: char) -> (r: Option<usize>)
    ensures
        r matches Some(i) ==> i == rpos(s@, c) && i < s.len(),
        r is None ==> rpos(s@, c) == -1,
{
    let mut i: usize = s.len();
    while i > 0
        invariant
            i <= s.len(),
            forall|j: int| i <= j < s.len() ==> s@[j] != c,
        decreases i,
    {
        if s[i - 1] == c {
            proof {
                lemma_rpos_is(s@, c, i - 1);
            }
            return Some(i - 1);
        }
        i -= 1;
    }
    proof {
        lemma_rpos_is(s@, c, -1);
    }
    None
}

/// The index of the first occurrence of `p`, if there is one.
pub fn find_chars(s: &[char], p: &[char]) -> (r: Option<usize>)
    ensures
        r matches Some(i) ==> find(s@, p@) == Some(i as int) && at(s@, p@, i as int),
        r is None ==> find(s@, p@) is None,
{
    proof {
        lemma_find(s@, p@);
    }
    if p.len() > s.len() {
        assert(forall|j: int| !at(s@, p@, j));
        assert(find(s@, p@) is None);
        return None;
    }
    let mut i: usize = 0;
    let last: usize = s.len() - p.len();
    while i <= last
        invariant
            last == s.len() - p.len(),
            i <= last + 1,
            last + 1 <= s.len() + 1,
            forall|j: int| 0 <= j < i ==> !at(s@, p@, j),
        ensures
            forall|j: int| 0 <= j <= last ==> !at(s@, p@, j),
        decreases last + 1 - i,
    {
        if is_at(s, p, i) {
            proof {
                lemma_find_is(s@, p@, i as int);
            }
            return Some(i);
        }
        if i == last {
            break ;
        }
        i += 1;
    }
    assert(forall|j: int| !at(s@, p@, j)) by {
        assert forall|j: int| !at(s@, p@, j) by {
            if at(s@, p@, j) {
                assert(0 <= j <= last);
            }
        }
    }
    None
}

pub fn contains(s: &str, p: &str) -> (r: bool)
    ensures
        r == within(s@, p@),
{
    let a = chars_of(s);
    let b = chars_of(p);
    proof {
        lemma_find(s@, p@);
    }
    match find_chars(a.as_slice(), b.as_slice()) {
        Some(_) => true,
        None => false,
    }
}

pub fn contains_char(s: &str, c: char) -> (r: bool)
    ensures
        r == s@.contains(c),
{
    let a = chars_of(s);
    proof {
        lemma_pos(s@, c);
    }
    pos_of(a.as_slice(), c) < a.len()
}


/// The pieces between the occurrences of `c`.
pub fn split_str(s: &str, c: char) -> (r: Vec<String>)
    ensures
        strs(r@) == split(s@, c),
        r@.len() == split(s@, c).len(),
        r@.len() >= 1,
{
    let v = chars_of(s);
    let mut out: Vec<String> = Vec::new();
    let mut start: usize = 0;
    assert(s@.skip(0) =~= s@);
    assert(strs(out@) + split(s@, c) =~= split(s@, c));
    loop
        invariant
            start <= v.len(),
            v@ == s@,
            strs(out@) + split(s@.skip(start as int), c) == split(s@, c),
        decreases v.len() - start,
    {
        let ghost t = s@.skip(start as int);
        let i = pos_from(v.as_slice(), c, start);
        let piece = string_from(v.as_slice(), start, i);
        proof {
            lemma_strs_push(out@, piece);
            assert(t.take(i - start) =~= piece@);
        }
        let ghost prev = strs(out@);
        out.push(piece);
        if i < v.len() {
            proof {
                assert(t.skip(i - start + 1) =~= s@.skip(i + 1));
                assert(split(t, c) == seq![piece@] + split(s@.skip(i + 1), c));
                assert(strs(out@) + split(s@.skip(i + 1), c) =~= prev + split(t, c));
            }
            start = i + 1;
        } else {
            proof {
                assert(t.take(t.len() as int) =~= t);
                assert(split(t, c) == seq![t]);
                assert(strs(out@) =~= prev + split(t, c));
            }
            return out;
        }
    }
}

/// The two sides of the first `c`.
pub fn split_first(s: &str, c: char) -> (r: Option<(String, String)>)
    ensures
        r matches Some(p) ==> split_once(s@, c) == Some((p.0@, p.1@)),
        r is None ==> split_once(s@, c) is None,
{
    let v = chars_of(s);
    let i = pos_of(v.as_slice(), c);
    if i < v.len() {
        assert(s@.subrange(0, i as int) =~= s@.take(i as int));
        assert(s@.subrange(i + 1, s@.len() as int) =~= s@.skip(i + 1));
        Some((string_from(v.as_slice(), 0, i), string_from(v.as_slice(), i + 1, v.len())))
    } else {
        None
    }
}

/// The two sides of the last `c`.
pub fn split_last(s: &str, c: char) -> (r: Option<(String, String)>)
    ensures
        r matches Some(p) ==> rsplit_once(s@, c) == Some((p.0@, p.1@)),
        r is None ==> rsplit_once(s@, c) is None,
{
    let v = chars_of(s);
    match rpos_of(v.as_slice(), c) {
        Some(i) => {
            assert(s@.subrange(0, i as int) =~= s@.take(i as int));
            assert(s@.subrange(i + 1, s@.len() as int) =~= s@.skip(i + 1));
            Some((string_from(v.as_slice(), 0, i), string_from(v.as_slice(), i + 1, v.len())))
        },
        None => None,
    }
}

pub fn space(c: char) -> (r: bool)
    ensures
        r == is_space(c),
{
    let n: u32 = c as u32;
    (0x09 <= n && n <= 0x0d) || n == 0x20 || n == 0x85 || n == 0xa0 || n == 0x1680 || (0x2000 <= n
        && n <= 0x200a) || n == 0x2028 || n == 0x2029 || n == 0x202f || n == 0x205f || n == 0x3000
}

/// The index of the first character at or after `from` that is not white space.
fn lead_from(v: &[char], from: usize) -> (r: usize)
    requires
        from <= v.len(),
    ensures
        from <= r <= v.len(),
        r == from + lead(v@.skip(from as int)),
{
    let ghost t = v@.skip(from as int);
    let mut i: usize = from;
    while i < v.len() && space(v[i])
        invariant
            from <= i <= v.len(),
            t == v@.skip(from as int),
            forall|j: int| 0 <= j < i - from ==> is_space(t[j]),
        decreases v.len() - i,
    {
        assert(t[i - from] == v@[i as int]);
        i += 1;
    }
    proof {
        if i < v.len() {
            assert(t[i - from] == v@[i as int]);
        }
        lemma_lead_is(t, i - from);
    }
    i
}

/// The index of the first white space at or after `from`.
fn run_from(v: &[char], from: usize) -> (r: usize)
    requires
        from <= v.len(),
    ensures
        from <= r <= v.len(),
        r == from + run(v@.skip(from as int)),
{
    let ghost t = v@.skip(from as int);
    let mut i: usize = from;
    while i < v.len() && !space(v[i])
        invariant
            from <= i <= v.len(),
            t == v@.skip(from as int),
            forall|j: int| 0 <= j < i - from ==> !is_space(t[j]),
        decreases v.len() - i,
    {
        assert(t[i - from] == v@[i as int]);
        i += 1;
    }
    proof {
        if i < v.len() {
            assert(t[i - from] == v@[i as int]);
        }
        lemma_run_is(t, i - from);
    }
    i
}

pub fn trim_str(s: &str) -> (r: String)
    ensures
        r@ == trim(s@),
{
    let v = chars_of(s);
    assert(s@.skip(0) =~= s@);
    let a = lead_from(v.as_slice(), 0);
    let ghost t = s@.skip(a as int);
    let mut b: usize = v.len();
    while b > a && space(v[b - 1])
        invariant
            a <= b <= v.len(),
            v@ == s@,
            t == s@.skip(a as int),
            forall|j: int| b - a <= j < t.len() ==> is_space(t[j]),
        decreases b,
    {
        assert(t[b - 1 - a] == v@[b - 1]);
        b -= 1;
    }
    proof {
        if b > a {
            assert(t[b - 1 - a] == v@[b - 1]);
        }
        lemma_trim_end_is(t, b - a);
        assert(t.take(b - a) =~= s@.subrange(a as int, b as int));
    }
    string_from(v.as_slice(), a, b)
}

/// The runs of characters that are not white space.
pub fn words_of(s: &str) -> (r: Vec<String>)
    ensures
        strs(r@) == words(s@),
        r@.len() == words(s@).len(),
{
    let v = chars_of(s);
    let mut out: Vec<String> = Vec::new();
    let mut start: usize = 0;
    assert(s@.skip(0) =~= s@);
    assert(strs(out@) + words(s@) =~= words(s@));
    loop
        invariant
            start <= v.len(),
            v@ == s@,
            strs(out@) + words(s@.skip(start as int)) == words(s@),
        decreases v.len() - start,
    {
        let ghost rest = s@.skip(start as int);
        let a = lead_from(v.as_slice(), start);
        if a >= v.len() {
            assert(words(rest) =~= seq![]);
            assert(strs(out@) + words(rest) =~= strs(out@));
            return out;
        }
        let b = run_from(v.as_slice(), a);
        let ghost t = s@.skip(a as int);
        proof {
            lemma_lead(rest);
            lemma_run(t);
            assert(rest.skip(a - start) =~= t);
            assert(t[0] == rest[lead(rest)]);
            assert(b > a);
        }
        let piece = string_from(v.as_slice(), a, b);
        let ghost prev = strs(out@);
        proof {
            lemma_strs_push(out@, piece);
            assert(t.take(b - a) =~= piece@);
            assert(t.skip(b - a) =~= s@.skip(b as int));
            assert(words(rest) == seq![piece@] + words(s@.skip(b as int)));
        }
        out.push(piece);
        proof {
            assert(strs(out@) + words(s@.skip(b as int)) =~= prev + words(rest));
        }
        start = b;
    }
}

/// The lines of a text.
pub fn lines_of(s: &str) -> (r: Vec<String>)
    ensures
        strs(r@) == lines(s@),
        r@.len() == lines(s@).len(),
{
    let v = chars_of(s);
    let mut out: Vec<String> = Vec::new();
    let mut start: usize = 0;
    assert(s@.skip(0) =~= s@);
    assert(strs(out@) + lines(s@) =~= lines(s@));
    loop
        invariant
            start <= v.len(),
            v@ == s@,
            strs(out@) + lines(s@.skip(start as int)) == lines(s@),
        decreases v.len() - start,
    {
        let ghost t = s@.skip(start as int);
        let ghost prev = strs(out@);
        let i = pos_from(v.as_slice(), '\n', start);
        if i < v.len() {
            let end: usize = if i > start && v[i - 1] == '\r' {
                i - 1
            } else {
                i
            };
            let piece = string_from(v.as_slice(), start, end);
            proof {
                lemma_strs_push(out@, piece);
                if i > start {
                    assert(t.take(i - start).last() == v@[i - 1]);
                }
                assert(chomp(t.take(i - start)) =~= piece@);
                assert(t.skip(i - start + 1) =~= s@.skip(i + 1));
                assert(lines(t) == seq![piece@] + lines(s@.skip(i + 1)));
            }
            out.push(piece);
            proof {
                assert(strs(out@) + lines(s@.skip(i + 1)) =~= prev + lines(t));
            }
            start = i + 1;
        } else {
            if start < v.len() {
                let piece = string_from(v.as_slice(), start, v.len());
                proof {
                    lemma_strs_push(out@, piece);
                    assert(piece@ =~= t);
                    assert(lines(t) == seq![t]);
                }
                out.push(piece);
                assert(strs(out@) =~= prev + lines(t));
            } else {
                assert(lines(t) =~= seq![]);
                assert(strs(out@) =~= prev + lines(t));
            }
            return out;
        }
    }
}

/// An unsigned decimal number no larger than `max`.
pub fn parse_number(s: &str, max: u64) -> (r: Option<u64>)
    ensures
        r matches Some(n) ==> number(s@, max as nat) == Some(n as nat) && n <= max,
        r is None ==> number(s@, max as nat) is None,
{
    let v = chars_of(s);
    let from: usize = if v.len() > 0 && v[0] == '+' {
        1
    } else {
        0
    };
    let ghost d = unsigned(s@);
    proof {
        assert(s@.skip(0) =~= s@);
        assert(d == s@.skip(from as int));
    }
    if from == v.len() {
        return None;
    }
    let mut acc: u64 = 0;
    let mut i: usize = from;
    while i < v.len()
        invariant
            from <= i <= v.len(),
            v@ == s@,
            d == s@.skip(from as int),
            d == unsigned(s@),
            acc == dec_val(d.take(i - from)),
            acc <= max,
            forall|j: int| 0 <= j < i - from ==> is_digit(#[trigger] d[j]),
        decreases v.len() - i,
    {
        let c = v[i];
        assert(d[i - from] == c);
        if c < '0' || c > '9' {
            assert(!is_digit(d[i - from]));
            return None;
        }
        let k: u8 = (c as u8) - 48;
        let next: u128 = acc as u128 * 10 + k as u128;
        assert(d.take(i - from + 1).drop_last() =~= d.take(i - from));
        assert(next == dec_val(d.take(i - from + 1)));
        if next > max as u128 {
            proof {
                if all_digits(d) {
                    lemma_dec_val_grows(d, i - from + 1);
                }
            }
            return None;
        }
        acc = next as u64;
        i += 1;
    }
    assert(d.take(i - from) =~= d);
    Some(acc)
}

pub fn parse_u64(s: &str) -> (r: Option<u64>)
    ensures
        r matches Some(n) ==> number(s@, u64::MAX as nat) == Some(n as nat),
        r is None ==> number(s@, u64::MAX as nat) is None,
{
    parse_number(s, u64::MAX)
}

pub fn parse_u32(s: &str) -> (r: Option<u32>)
    ensures
        r matches Some(n) ==> number(s@, u32::MAX as nat) == Some(n as nat),
        r is None ==> number(s@, u32::MAX as nat) is None,
{
    match parse_number(s, u32::MAX as u64) {
        Some(n) => Some(n as u32),
        None => None,
    }
}

pub fn parse_u16(s: &str) -> (r: Option<u16>)
    ensures
        r matches Some(n) ==> number(s@, u16::MAX as nat) == Some(n as nat),
        r is None ==> number(s@, u16::MAX as nat) is None,
{
    match parse_number(s, u16::MAX as u64) {
        Some(n) => Some(n as u16),
        None => None,
    }
}

/// The value of a hexadecimal digit, or sixteen.
pub fn digit_val(c: char) -> (r: u8)
    ensures
        r == hex_digit_val(c),
        r <= 16,
{
    if '0' <= c && c <= '9' {
        (c as u8) - 48
    } else if 'a' <= c && c <= 'f' {
        (c as u8) - 87
    } else if 'A' <= c && c <= 'F' {
        (c as u8) - 55
    } else {
        16
    }
}

/// An unsigned hexadecimal number no larger than `max`.
pub fn parse_hex(s: &str, max: u64) -> (r: Option<u64>)
    ensures
        r matches Some(n) ==> hex_number(s@, max as nat) == Some(n as nat) && n <= max,
        r is None ==> hex_number(s@, max as nat) is None,
{
    let v = chars_of(s);
    let from: usize = if v.len() > 0 && v[0] == '+' {
        1
    } else {
        0
    };
    let ghost d = unsigned(s@);
    proof {
        assert(s@.skip(0) =~= s@);
        assert(d == s@.skip(from as int));
    }
    if from == v.len() {
        return None;
    }
    let mut acc: u64 = 0;
    let mut i: usize = from;
    while i < v.len()
        invariant
            from <= i <= v.len(),
            v@ == s@,
            d == s@.skip(from as int),
            d == unsigned(s@),
            acc == hex_val(d.take(i - from)),
            acc <= max,
            forall|j: int| 0 <= j < i - from ==> hex_digit_val(#[trigger] d[j]) < 16,
        decreases v.len() - i,
    {
        let k = digit_val(v[i]);
        assert(d[i - from] == v@[i as int]);
        if k == 16 {
            assert(hex_digit_val(d[i - from]) == 16);
            return None;
        }
        let next: u128 = acc as u128 * 16 + k as u128;
        assert(d.take(i - from + 1).drop_last() =~= d.take(i - from));
        assert(next == hex_val(d.take(i - from + 1)));
        if next > max as u128 {
            proof {
                lemma_hex_val_grows(d, i - from + 1);
            }
            return None;
        }
        acc = next as u64;
        i += 1;
    }
    assert(d.take(i - from) =~= d);
    Some(acc)
}

/// Appends the decimal digits of `n`.
pub fn push_dec(out: &mut String, n: u64)
    ensures
        final(out)@ == old(out)@ + dec(n as nat),
    decreases n,
{
    if n >= 10 {
        push_dec(out, n / 10);
    }
    let d: u8 = (n % 10) as u8;
    out.push((48 + d) as char);
    assert(out@ =~= old(out)@ + dec(n as nat));
}

/// The decimal digits of `n`.
pub fn dec_string(n: u64) -> (r: String)
    ensures
        r@ == dec(n as nat),
{
    let mut out = String::new();
    push_dec(&mut out, n);
    assert(Seq::<char>::empty() + dec(n as nat) =~= dec(n as nat));
    out
}

/// The lower-case hexadecimal digit of `d`.
pub fn hex_char(d: u8) -> (r: char)
    requires
        d < 16,
    ensures
        r == hex_digit(d as int),
{
    if d < 10 {
        (48 + d) as char
    } else {
        (87 + d) as char
    }
}

/// Appends the hexadecimal digits of `n`.
pub fn push_hex(out: &mut String, n: u64)
    ensures
        final(out)@ == old(out)@ + hex(n as nat),
    decreases n,
{
    if n >= 16 {
        push_hex(out, n / 16);
    }
    out.push(hex_char((n % 16) as u8));
    assert(out@ =~= old(out)@ + hex(n as nat));
}

/// The bytes in lower-case hexadecimal, two digits each.
pub fn hex_of_bytes(b: &[u8]) -> (r: String)
    ensures
        r@ == hex_bytes(b@),
{
    let mut out = String::new();
    let mut i: usize = 0;
    while i < b.len()
        invariant
            i <= b.len(),
            out@ == hex_bytes(b@.take(i as int)),
        decreases b.len() - i,
    {
        assert(b@.take(i + 1).drop_last() =~= b@.take(i as int));
        out.push(hex_char(b[i] / 16));
        out.push(hex_char(b[i] % 16));
        i += 1;
    }
    assert(b@.take(i as int) =~= b@);
    out
}

/// ASCII letters made lower case.
pub fn lower_chars(v: &[char]) -> (r: Vec<char>)
    ensures
        r@ == lower(v@),
{
    let mut out: Vec<char> = Vec::new();
    let mut i: usize = 0;
    while i < v.len()
        invariant
            i <= v.len(),
            out@ == lower(v@.take(i as int)),
        decreases v.len() - i,
    {
        let c = v[i];
        let l = if 'A' <= c && c <= 'Z' {
            ((c as u8) + 32) as char
        } else {
            c
        };
        assert(lower(v@.take(i + 1)) =~= lower(v@.take(i as int)).push(lower_char(c)));
        out.push(l);
        i += 1;
    }
    assert(v@.take(i as int) =~= v@);
    out
}

/// The pieces put together with `sep` between each two.
pub fn join_strs(v: &Vec<String>, sep: &str) -> (r: String)
    ensures
        r@ == join(strs(v@), sep@),
{
    let mut out = String::new();
    let mut i: usize = 0;
    while i < v.len()
        invariant
            i <= v.len(),
            out@ == join(strs(v@).take(i as int), sep@),
        decreases v.len() - i,
    {
        let ghost t = strs(v@).take(i + 1);
        assert(t.drop_last() =~= strs(v@).take(i as int));
        assert(t.last() == v@[i as int]@);
        if i > 0 {
            out.append(sep);
        }
        out.append(v[i].as_str());
        assert(out@ =~= join(t, sep@));
        i += 1;
    }
    assert(strs(v@).take(i as int) =~= strs(v@));
    out
}

/// `s` without the slashes at its start.
pub fn trim_slashes(s: &str) -> (r: String)
    ensures
        r@ == unslashed(s@),
{
    let v = chars_of(s);
    let mut i: usize = 0;
    assert(v@.skip(0) =~= v@);
    while i < v.len() && v[i] == '/'
        invariant
            i <= v.len(),
            unslashed(v@.skip(i as int)) == unslashed(v@),
        decreases v.len() - i,
    {
        assert(v@.skip(i as int).skip(1) =~= v@.skip(i + 1));
        i += 1;
    }
    let r = string_from(v.as_slice(), i, v.len());
    assert(r@ =~= v@.skip(i as int));
    r
}

/// `s` with its ASCII letters made lower case.
pub fn lower_str(s: &str) -> (r: String)
    ensures
        r@ == lower(s@),
{
    let v = chars_of(s);
    let l = lower_chars(v.as_slice());
    string_of(l.as_slice())
}

/// Every occurrence of `p` replaced by `q`.
pub fn replace_all(s: &str, p: &str, q: &str) -> (r: String)
    requires
        p@.len() > 0,
    ensures
        r@ == replace(s@, p@, q@),
{
    let pv = chars_of(p);
    let mut rest = chars_of(s);
    let mut out = String::new();
    assert(out@ + replace(s@, p@, q@) =~= replace(s@, p@, q@));
    loop
        invariant
            pv@ == p@,
            p@.len() > 0,
            out@ + replace(rest@, p@, q@) == replace(s@, p@, q@),
        decreases rest.len(),
    {
        match find_chars(rest.as_slice(), pv.as_slice()) {
            Some(i) => {
                let ghost prev = out@;
                let ghost r0 = rest@;
                let head = string_from(rest.as_slice(), 0, i);
                out.append(head.as_str());
                out.append(q);
                let next = part(rest.as_slice(), i + pv.len(), rest.len());
                proof {
                    assert(r0.take(i as int) =~= head@);
                    assert(r0.skip(i + p@.len()) =~= next@);
                    assert(replace(r0, p@, q@) == head@ + q@ + replace(next@, p@, q@));
                    assert(out@ + replace(next@, p@, q@) =~= prev + replace(r0, p@, q@));
                }
                rest = next;
            },
            None => {
                let tail = string_of(rest.as_slice());
                out.append(tail.as_str());
                return out;
            },
        }
    }
}

/// How many characters at the start are decimal digits.
pub fn leading_digits(v: &[char]) -> (r: usize)
    ensures
        r == digit_run(v@),
        r <= v.len(),
{
    let mut i: usize = 0;
    while i < v.len() && '0' <= v[i] && v[i] <= '9'
        invariant
            i <= v.len(),
            forall|j: int| 0 <= j < i ==> is_digit(v@[j]),
        decreases v.len() - i,
    {
        i += 1;
    }
    proof {
        lemma_digit_run_is(v@, i as int);
    }
    i
}

// ---------------------------------------------------------------------------
// Laws
// ---------------------------------------------------------------------------
/// A word goes on up to the next space, and spaces before it do not count.
pub proof fn words_stand_between_spaces(gap: Seq<char>, word: Seq<char>, rest: Seq<char>)
    requires
        forall|i: int| 0 <= i < gap.len() ==> is_space(#[trigger] gap[i]),
        forall|i: int| 0 <= i < word.len() ==> !is_space(#[trigger] word[i]),
        rest.len() > 0 ==> is_space(rest[0]),
    ensures
        word.len() > 0 ==> words(gap + word + rest) == seq![word] + words(rest),
        words(gap).len() == 0,
{
    lemma_lead_is(gap, gap.len() as int);
    if word.len() > 0 {
        let s = gap + word + rest;
        let n = gap.len() as int;
        assert(s[n] == word[0]);
        assert forall|j: int| 0 <= j < n implies is_space(s[j]) by {
            assert(s[j] == gap[j]);
        }
        lemma_lead_is(s, n);
        let t = s.skip(n);
        let m = word.len() as int;
        assert forall|j: int| 0 <= j < m implies !is_space(t[j]) by {
            assert(t[j] == word[j]);
        }
        if m < t.len() {
            assert(t[m] == rest[0]);
        }
        lemma_run_is(t, m);
        assert(t.take(m) =~= word);
        assert(t.skip(m) =~= rest);
    }
}

/// A line goes on up to its break; a carriage return before the break belongs to
/// it, and a last line needs none.
pub proof fn lines_end_at_their_breaks(line: Seq<char>, rest: Seq<char>)
    requires
        !line.contains('\n'),
    ensures
        lines(line.push('\n') + rest).skip(1) == lines(rest),
        line.len() == 0 || line.last() != '\r' ==> lines(line.push('\n') + rest)[0] == line,
        lines(line + "\r\n"@ + rest) == seq![line] + lines(rest),
        line.len() > 0 ==> lines(line) == seq![line],
        line.len() == 0 ==> lines(line).len() == 0,
{
    reveal_strlit("\r\n");
    lemma_first_line(line, rest);
    lemma_pos(line, '\n');
    let marked = line.push('\r');
    assert(!marked.contains('\n')) by {
        if marked.contains('\n') {
            let i = choose|i: int| 0 <= i < marked.len() && marked[i] == '\n';
            if i < line.len() {
                assert(line[i] == '\n');
            }
        }
    }
    lemma_first_line(marked, rest);
    assert(line + "\r\n"@ + rest =~= marked.push('\n') + rest);
    assert(marked.drop_last() =~= line);
    assert((seq![chomp(line)] + lines(rest)).skip(1) =~= lines(rest));
}

proof fn lemma_first_line(line: Seq<char>, rest: Seq<char>)
    requires
        !line.contains('\n'),
    ensures
        lines(line.push('\n') + rest) == seq![chomp(line)] + lines(rest),
{
    let s = line.push('\n') + rest;
    let n = line.len() as int;
    assert(s[n] == '\n');
    assert forall|j: int| 0 <= j < n implies s[j] != '\n' by {
        assert(s[j] == line[j]);
        assert(line.contains(line[j]));
    }
    lemma_pos_is(s, '\n', n);
    assert(s.take(n) =~= line);
    assert(s.skip(n + 1) =~= rest);
}

/// Trimming takes the spaces at both ends, and nothing else.
pub proof fn trimming_takes_the_spaces_at_the_ends(a: Seq<char>, s: Seq<char>, b: Seq<char>)
    requires
        forall|i: int| 0 <= i < a.len() ==> is_space(#[trigger] a[i]),
        forall|i: int| 0 <= i < b.len() ==> is_space(#[trigger] b[i]),
        s.len() > 0,
        !is_space(s[0]),
        !is_space(s[s.len() - 1]),
    ensures
        trim(a + s + b) == s,
        trim(a).len() == 0,
{
    let t = a + s + b;
    let n = a.len() as int;
    assert(t[n] == s[0]);
    assert forall|j: int| 0 <= j < n implies is_space(t[j]) by {
        assert(t[j] == a[j]);
    }
    lemma_lead_is(t, n);
    let u = t.skip(n);
    assert(u =~= s + b);
    let m = s.len() as int;
    assert(u[m - 1] == s[m - 1]);
    assert forall|j: int| m <= j < u.len() implies is_space(u[j]) by {
        assert(u[j] == b[j - m]);
    }
    lemma_trim_end_is(u, m);
    assert(u.take(m) =~= s);
    lemma_lead_is(a, n);
    assert(a.skip(n).len() == 0);
}

proof fn lemma_join_cons(a: Seq<char>, rest: Seq<Seq<char>>, sep: Seq<char>)
    requires
        rest.len() > 0,
    ensures
        join(seq![a] + rest, sep) == a + sep + join(rest, sep),
    decreases rest.len(),
{
    let all = seq![a] + rest;
    if rest.len() == 1 {
        assert(all.drop_last() =~= seq![a]);
        assert(all.last() == rest[0]);
        assert(join(seq![a], sep) == a);
    } else {
        lemma_join_cons(a, rest.drop_last(), sep);
        assert(all.drop_last() =~= seq![a] + rest.drop_last());
        assert(all.last() == rest.last());
        assert(join(all, sep) =~= a + sep + join(rest, sep));
    }
}

/// What was split is put together again with what it was split at.
pub proof fn parts_join_to_the_whole(s: Seq<char>, c: char)
    ensures
        join(split(s, c), seq![c]) == s,
    decreases s.len(),
{
    lemma_pos(s, c);
    let i = pos(s, c);
    if i < s.len() {
        let rest = s.skip(i + 1);
        lemma_split(rest, c);
        parts_join_to_the_whole(rest, c);
        lemma_join_cons(s.take(i), split(rest, c), seq![c]);
        assert(s =~= s.take(i) + seq![c] + rest);
    }
}

/// A number is its digits, behind a plus sign or not; with anything else among
/// them, with none, or past its bound, it is none.
pub proof fn a_number_is_its_digits(n: nat, s: Seq<char>, i: int, max: nat)
    ensures
        number(dec(n), max) == (if n <= max {
            Some(n)
        } else {
            None
        }),
        number("+"@ + dec(n), max) == number(dec(n), max),
        0 < i < s.len() && !('0' <= s[i] <= '9') ==> number(s, max) is None,
        s.len() > 0 && s[0] != '+' && !('0' <= s[0] <= '9') ==> number(s, max) is None,
        s.len() == 0 ==> number(s, max) is None,
{
    reveal_strlit("+");
    lemma_dec(n);
    assert(is_digit(dec(n)[0]));
    assert(("+"@ + dec(n)).skip(1) =~= dec(n));
    let d = unsigned(s);
    if 0 < i < s.len() && !('0' <= s[i] <= '9') {
        if s[0] == '+' {
            assert(d[i - 1] == s[i]);
            assert(!is_digit(d[i - 1]));
        } else {
            assert(!is_digit(d[i]));
        }
    }
    if s.len() > 0 && s[0] != '+' && !('0' <= s[0] <= '9') {
        assert(!is_digit(d[0]));
    }
}

/// What is written in hexadecimal is read back.
pub proof fn hexadecimal_is_read_back(n: nat, max: nat)
    requires
        n <= max,
    ensures
        hex_number(hex(n), max) == Some(n),
{
    lemma_hex(n);
}

proof fn lemma_hex(n: nat)
    ensures
        hex(n).len() > 0,
        all_hex(hex(n)),
        hex_val(hex(n)) == n,
        hex(n)[0] != '+',
    decreases n,
{
    let d = hex_digit((n % 16) as int);
    assert(hex_digit_val(d) == n % 16);
    if n < 16 {
        let s = hex(n);
        assert(s.drop_last() =~= Seq::<char>::empty());
        assert(hex_val(s.drop_last()) == 0);
    } else {
        lemma_hex(n / 16);
        let s = hex(n);
        assert(s.drop_last() =~= hex(n / 16));
        assert forall|i: int| 0 <= i < s.len() implies hex_digit_val(#[trigger] s[i]) < 16 by {
            if i < hex(n / 16).len() {
                assert(s[i] == hex(n / 16)[i]);
            }
        }
    }
}

/// A small letter stands for each capital, and everything else stays.
pub proof fn lowering_touches_capitals_alone(s: Seq<char>, i: int)
    requires
        0 <= i < s.len(),
    ensures
        lower(s).len() == s.len(),
        'A' <= s[i] <= 'Z' ==> lower(s)[i] as u32 == s[i] as u32 + 32,
        !('A' <= s[i] <= 'Z') ==> lower(s)[i] == s[i],
{
}

/// A name under a directory stands behind it and one slash; one that is a path of
/// its own, or under nothing, stands alone.
pub proof fn a_name_stands_under_its_directory(dir: Seq<char>, name: Seq<char>)
    requires
        name.len() == 0 || name[0] != '/',
    ensures
        dir.len() > 0 && dir.last() != '/' ==> under(dir, name) == dir + "/"@ + name,
        under(dir + "/"@, name) == dir + "/"@ + name,
        under(dir, "/"@ + name) == "/"@ + name,
        under(Seq::empty(), name) == name,
{
    reveal_strlit("/");
}

/// Replacing goes from the left, and on behind what it put in.
pub proof fn replacing_goes_from_the_left(a: Seq<char>, p: Seq<char>, b: Seq<char>, q: Seq<char>)
    requires
        p.len() > 0,
        forall|i: int| 0 <= i < a.len() ==> !#[trigger] at(a + p + b, p, i),
        forall|i: int| !#[trigger] at(a, p, i),
    ensures
        replace(a + p + b, p, q) == a + q + replace(b, p, q),
        replace(a, p, q) == a,
{
    let s = a + p + b;
    let n = a.len() as int;
    assert(s.subrange(n, n + p.len()) =~= p);
    assert(at(s, p, n));
    lemma_find_is(s, p, n);
    assert(s.take(n) =~= a);
    assert(s.skip(n + p.len()) =~= b);
    lemma_find(a, p);
}

} // verus!

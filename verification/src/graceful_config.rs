//! Configuration for the graceful hook. Separated from the rest of the
//! configuration only so the hook's types sit beside nothing else that could
//! imply Prism understands what it is asking a workload to drop.

use crate::text;
use vstd::prelude::*;

verus! {

/// What to say, and how long to wait for an answer.
#[derive(Debug)]
pub struct Graceful {
    pub http_post: HttpPost,
    /// How long to wait, as a duration string. Ten seconds where none is given.
    pub timeout: String,
}

#[derive(Debug)]
pub struct HttpPost {
    pub url: String,
    /// Sent as written, except for `{placeholder}` spans — see
    /// `crate::graceful::Deficit::render`.
    pub body: String,
    /// Defaults to JSON, which is what every endpoint this addresses speaks.
    pub content_type: Option<String>,
}

pub struct GracefulView {
    pub url: Seq<char>,
    pub body: Seq<char>,
    pub content_type: Option<Seq<char>>,
    pub timeout: Seq<char>,
}

impl View for Graceful {
    type V = GracefulView;

    open spec fn view(&self) -> GracefulView {
        GracefulView {
            url: self.http_post.url@,
            body: self.http_post.body@,
            content_type: text::opt(self.http_post.content_type),
            timeout: self.timeout@,
        }
    }
}

impl Clone for Graceful {
    fn clone(&self) -> (r: Self)
        ensures
            r@ == self@,
    {
        Graceful {
            http_post: HttpPost {
                url: self.http_post.url.clone(),
                body: self.http_post.body.clone(),
                content_type: text::copy_opt(&self.http_post.content_type),
            },
            timeout: self.timeout.clone(),
        }
    }
}

/// The timeout of a hook that names none.
pub fn default_timeout() -> (r: String)
    ensures
        r@ == "10s"@,
{
    "10s".to_string()
}

/// How many milliseconds a unit stands for.
pub open spec fn unit_ms(unit: Seq<char>) -> Option<nat> {
    if unit == "ms"@ {
        Some(1)
    } else if unit == "s"@ || unit == ""@ {
        Some(1_000)
    } else if unit == "m"@ {
        Some(60_000)
    } else if unit == "h"@ {
        Some(3_600_000)
    } else {
        None
    }
}

/// The milliseconds that a duration string writes: digits, then a unit. One of
/// more whole seconds than a `u64` holds cannot be read.
pub open spec fn duration_ms(s: Seq<char>) -> Option<nat> {
    let t = text::trim(s);
    let k = text::digit_run(t);
    match (text::number(t.take(k), u64::MAX as nat), unit_ms(text::trim(t.skip(k)))) {
        (Some(n), Some(u)) => if n * u / 1000 <= u64::MAX {
            Some(n * u)
        } else {
            None
        },
        _ => None,
    }
}

/// Parse `"10s"`, `"500ms"`, `"2m"`, in milliseconds. Bare numbers are seconds.
pub fn parse_duration(s: &str) -> (r: Option<u128>)
    ensures
        r matches Some(n) ==> duration_ms(s@) == Some(n as nat),
        r is None ==> duration_ms(s@) is None,
{
    let t = text::trim_str(s);
    let v = text::chars_of(t.as_str());
    let k = text::leading_digits(v.as_slice());
    let digits = text::string_from(v.as_slice(), 0, k);
    let rest = text::string_from(v.as_slice(), k, v.len());
    assert(digits@ =~= text::trim(s@).take(k as int));
    assert(rest@ =~= text::trim(s@).skip(k as int));
    let unit = text::trim_str(rest.as_str());
    let n: u64 = match text::parse_u64(digits.as_str()) {
        Some(n) => n,
        None => {
            return None;
        },
    };
    let per: u128 = if text::same(unit.as_str(), "ms") {
        1
    } else if text::same(unit.as_str(), "s") || text::same(unit.as_str(), "") {
        1_000
    } else if text::same(unit.as_str(), "m") {
        60_000
    } else if text::same(unit.as_str(), "h") {
        3_600_000
    } else {
        return None;
    };
    assert(n * per <= u64::MAX * 3_600_000) by (nonlinear_arith)
        requires
            n <= u64::MAX,
            per <= 3_600_000,
    ;
    let ms: u128 = n as u128 * per;
    if ms / 1000 > 0xffff_ffff_ffff_ffff {
        return None;
    }
    Some(ms)
}

impl Graceful {
    /// The configured timeout in milliseconds, or ten seconds if it cannot be
    /// read.
    ///
    /// A malformed duration does not fail the load. The alternative is refusing
    /// to start a facet because its shed hook has a typo in a timeout, which
    /// trades a working workload for a cosmetic correctness — and the daemon's
    /// whole argument is that it should degrade rather than stop.
    pub fn timeout(&self) -> (r: u128)
        ensures
            r == (match duration_ms(self.timeout@) {
                Some(n) => n,
                None => 10_000,
            }),
    {
        match parse_duration(self.timeout.as_str()) {
            Some(n) => n,
            None => 10_000,
        }
    }

    pub fn content_type(&self) -> (r: String)
        ensures
            r@ == (match self@.content_type {
                Some(t) => t,
                None => "application/json"@,
            }),
    {
        match &self.http_post.content_type {
            Some(t) => t.clone(),
            None => "application/json".to_string(),
        }
    }
}

/// A time is a number and a unit, or seconds where it names none; anything else is
/// no time.
pub proof fn a_time_is_a_number_and_a_unit(n: u64)
    requires
        n <= u64::MAX / 3_600_000,
    ensures
        duration_ms(text::dec(n as nat) + "ms"@) == Some(n as nat),
        duration_ms(text::dec(n as nat) + "s"@) == Some(n as nat * 1000),
        duration_ms(text::dec(n as nat)) == Some(n as nat * 1000),
        duration_ms(text::dec(n as nat) + "m"@) == Some(n as nat * 60 * 1000),
        duration_ms(text::dec(n as nat) + "h"@) == Some(n as nat * 60 * 60 * 1000),
{
    reveal_strlit("ms");
    reveal_strlit("s");
    reveal_strlit("m");
    reveal_strlit("h");
    reveal_strlit("");
    let d = text::dec(n as nat);
    assert("ms"@.len() == 2 && "s"@.len() == 1 && "m"@.len() == 1 && "h"@.len() == 1 && ""@.len()
        == 0);
    assert("s"@[0] == 's' && "m"@[0] == 'm' && "h"@[0] == 'h' && "ms"@[0] == 'm' && "ms"@[1] == 's');
    lemma_time(n, "ms"@);
    lemma_time(n, "s"@);
    lemma_time(n, "m"@);
    lemma_time(n, "h"@);
    lemma_time(n, ""@);
    assert(d + ""@ =~= d);
}

proof fn lemma_time(n: u64, unit: Seq<char>)
    requires
        forall|i: int| 0 <= i < unit.len() ==> 'a' <= #[trigger] unit[i] <= 'z',
    ensures
        ({
            let t = text::dec(n as nat) + unit;
            &&& text::trim(t) == t
            &&& text::number(t.take(text::digit_run(t)), u64::MAX as nat) == Some(n as nat)
            &&& text::trim(t.skip(text::digit_run(t))) == unit
        }),
{
    let d = text::dec(n as nat);
    let t = d + unit;
    text::lemma_dec(n as nat);
    assert(text::is_digit(d[0]) && text::is_digit(d[d.len() - 1]));
    assert(t[0] == d[0]);
    if unit.len() > 0 {
        assert(t.last() == unit[unit.len() - 1]);
        assert('a' <= unit[0] <= 'z');
    } else {
        assert(t.last() == d[d.len() - 1]);
    }
    text::lemma_trim_id(t);
    assert forall|j: int| 0 <= j < d.len() implies text::is_digit(t[j]) by {
        assert(text::is_digit(d[j]));
    }
    text::lemma_digit_run_is(t, d.len() as int);
    assert(t.take(d.len() as int) =~= d);
    assert(t.skip(d.len() as int) =~= unit);
    text::lemma_number_dec(n as nat, u64::MAX as nat);
    text::lemma_trim_id(unit);
}

/// What does not begin with a digit is no time, and neither is a number with a
/// unit that is none of the four.
pub proof fn anything_else_is_no_time(s: Seq<char>)
    requires
        ({
            let t = text::trim(s);
            let unit = text::trim(t.skip(text::digit_run(t)));
            ||| t.len() == 0
            ||| !text::is_digit(t[0])
            ||| unit.len() > 0 && unit != "ms"@ && unit != "s"@ && unit != "m"@ && unit != "h"@
        }),
    ensures
        duration_ms(s) is None,
{
    reveal_strlit("");
    let t = text::trim(s);
    if t.len() == 0 || !text::is_digit(t[0]) {
        assert(text::digit_run(t) == 0);
        assert(t.take(0).len() == 0);
    }
}

} // verus!

//! Workspace persistence.
//!
//! Layout lives on the host, not in the browser: a window that is opened on the
//! laptop should be there on the tablet.
//!
//! The state is deliberately opaque: a JSON text that the shell defines is
//! stored and returned. Writes go by a temporary file that is then renamed,
//! because a half-written layout would leave the operator with a desktop that
//! will not load.

use crate::json;
use crate::json::Json;
use crate::text;
use serde_json::Value;
use vstd::prelude::*;

verus! {

/// A ceiling on stored state. Layout is small; anything approaching this is a
/// bug or an attempt to use Prism as a database, and neither should be able to
/// fill the operator's disk.
pub const MAX_BYTES: usize = 262144;

/// Where the state is kept.
pub fn path(state_dir: &str) -> (r: String)
    ensures
        r@ == text::under(state_dir@, "workspace.json"@),
{
    text::join_path(state_dir, "workspace.json")
}

/// Where the state is written before it takes the place of the old.
pub fn temp_path(state_dir: &str) -> (r: String)
    ensures
        r@ == text::under(state_dir@, "workspace.json.tmp"@),
{
    text::join_path(state_dir, "workspace.json.tmp")
}

/// Why a state is not stored.
#[derive(Debug, Clone, Copy, PartialEq, Eq, Structural)]
pub enum Unfit {
    TooLarge,
    NotJson,
}

impl Unfit {
    pub open spec fn text(self) -> Seq<char> {
        match self {
            Unfit::TooLarge => "workspace state exceeds 262144 bytes"@,
            Unfit::NotJson => "not valid JSON"@,
        }
    }

    pub fn message(&self) -> (r: &'static str)
        ensures
            r@ == self.text(),
    {
        match self {
            Unfit::TooLarge => "workspace state exceeds 262144 bytes",
            Unfit::NotJson => "not valid JSON",
        }
    }

    pub fn status(&self) -> (r: u16)
        ensures
            r == (match *self {
                Unfit::TooLarge => 413u16,
                Unfit::NotJson => 400u16,
            }),
    {
        match self {
            Unfit::TooLarge => 413,
            Unfit::NotJson => 400,
        }
    }
}

/// Why a state is not stored, given whether it is JSON.
pub open spec fn unfit(bytes: nat, is_json: bool) -> Option<Unfit> {
    if bytes > MAX_BYTES {
        Some(Unfit::TooLarge)
    } else if !is_json {
        Some(Unfit::NotJson)
    } else {
        None
    }
}

/// Why a state of so many bytes is not stored, given whether it is JSON.
pub fn check(bytes: usize, is_json: bool) -> (r: Option<Unfit>)
    ensures
        r == unfit(bytes as nat, is_json),
{
    if bytes > MAX_BYTES {
        Some(Unfit::TooLarge)
    } else if !is_json {
        Some(Unfit::NotJson)
    } else {
        None
    }
}

/// Why a state is not stored, if it is not. It is looked at before it is
/// written: storing something unparseable would only fail later, on load, when
/// it is least convenient.
pub fn judge(body: &str) -> (r: Option<Unfit>)
    ensures
        r == judged(body@),
{
    let bytes = body.as_bytes();
    if bytes.len() > MAX_BYTES {
        return check(bytes.len(), false);
    }
    check(bytes.len(), json::is_json(bytes))
}

/// What a stored state gives back, where there is one and it can be read.
pub open spec fn given_back(stored: Option<Seq<char>>) -> Option<Json> {
    match stored {
        Some(t) => json::value_in(vstd::utf8::encode_utf8(t)),
        None => None,
    }
}

pub open spec fn seen(text: Option<&str>) -> Option<Seq<char>> {
    match text {
        Some(t) => Some(t@),
        None => None,
    }
}

/// The state that is stored. None yet is a first run, not an error, and one
/// that is corrupt must not wedge the desktop: either way there is nothing to
/// give back, and the next save writes over it.
pub fn stored(text: Option<&str>) -> (r: Option<Value>)
    ensures
        match r {
            Some(v) => given_back(seen(text)) == Some(json::held(v)),
            None => given_back(seen(text)) is None,
        },
{
    match text {
        Some(t) => json::parse(t.as_bytes()),
        None => None,
    }
}

// ---------------------------------------------------------------------------
// Laws
// ---------------------------------------------------------------------------

/// Why a text is not stored.
pub open spec fn judged(body: Seq<char>) -> Option<Unfit> {
    unfit(
        vstd::utf8::encode_utf8(body).len(),
        json::value_in(vstd::utf8::encode_utf8(body)) is Some,
    )
}

/// What a save lets through, a load gives back: a text that is stored is never
/// one that cannot be read again. And what is not JSON is never let through.
pub proof fn what_is_saved_can_be_loaded(body: Seq<char>)
    ensures
        judged(body) is None ==> given_back(Some(body)) is Some,
        given_back(Some(body)) is None ==> judged(body) is Some,
{
}

/// A state of up to 256 KiB that is JSON is stored; of one that is larger its size
/// is told, whatever it holds.
pub proof fn what_is_fit_to_be_stored(bytes: nat, is_json: bool)
    ensures
        unfit(bytes, is_json) is None <==> bytes <= 262_144 && is_json,
        unfit(bytes, is_json) == Some(Unfit::TooLarge) <==> bytes > 262_144,
        unfit(bytes, is_json) == Some(Unfit::NotJson) <==> bytes <= 262_144 && !is_json,
{
}

} // verus!

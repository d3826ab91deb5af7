//! RFC 6238 TOTP, compatible with Google Authenticator and Microsoft
//! Authenticator.
//!
//! Defaults match what the authenticator apps assume: HMAC-SHA1, 30-second
//! steps, 6 digits. Those are not configurable, because a mismatch produces a
//! silent "wrong code" that is miserable to debug from a phone in another city.

use crate::auth::crypto;
use crate::text;
use vstd::prelude::*;

verus! {

pub const STEP_SECS: u64 = 30;

pub const DIGITS: u32 = 6;

/// Secret length in bytes. 20 matches the RFC's SHA-1 block and is what the
/// authenticator apps expect.
pub const SECRET_LEN: usize = 20;

/// Calls `std::time::SystemTime::elapsed` on the Unix epoch: the whole seconds
/// since then, where the clock is not set before it. Nothing is claimed of how
/// many there are.
#[verifier::external_body]
fn since_epoch() -> Option<u64> {
    std::time::UNIX_EPOCH.elapsed().ok().map(|d| d.as_secs())
}

/// The time that is told, given the seconds since the Unix epoch: zero where the
/// clock is set before it.
pub fn seconds_told(since: Option<u64>) -> (r: u64)
    ensures
        r == (match since {
            Some(s) => s,
            None => 0,
        }),
{
    match since {
        Some(s) => s,
        None => 0,
    }
}

/// Seconds since the Unix epoch, as the machine's clock has it now and
/// [`seconds_told`] tells it. Nothing is claimed of how many there are.
pub fn now_unix() -> u64 {
    seconds_told(since_epoch())
}

/// The number of time steps up to a given Unix time.
pub open spec fn steps_at(unix_time: u64) -> u64 {
    unix_time / 30
}

/// The counter (number of time steps) for a given Unix time.
pub fn counter_at(unix_time: u64) -> (r: u64)
    ensures
        r == steps_at(unix_time),
{
    unix_time / STEP_SECS
}

/// The eight bytes of a number, the most significant first.
pub open spec fn be_bytes(n: u64) -> Seq<u8> {
    seq![
        (n as int / 0x100_0000_0000_0000 % 256) as u8,
        (n as int / 0x1_0000_0000_0000 % 256) as u8,
        (n as int / 0x100_0000_0000 % 256) as u8,
        (n as int / 0x1_0000_0000 % 256) as u8,
        (n as int / 0x100_0000 % 256) as u8,
        (n as int / 0x1_0000 % 256) as u8,
        (n as int / 0x100 % 256) as u8,
        (n as int % 256) as u8,
    ]
}

fn to_be_bytes(n: u64) -> (r: Vec<u8>)
    ensures
        r@ == be_bytes(n),
{
    let mut out: Vec<u8> = Vec::new();
    out.push((n / 0x100_0000_0000_0000 % 256) as u8);
    out.push((n / 0x1_0000_0000_0000 % 256) as u8);
    out.push((n / 0x100_0000_0000 % 256) as u8);
    out.push((n / 0x1_0000_0000 % 256) as u8);
    out.push((n / 0x100_0000 % 256) as u8);
    out.push((n / 0x1_0000 % 256) as u8);
    out.push((n / 0x100 % 256) as u8);
    out.push((n % 256) as u8);
    assert(out@ =~= be_bytes(n));
    out
}

/// Ten to a power.
pub open spec fn pow10(n: nat) -> nat
    decreases n,
{
    if n == 0 {
        1
    } else {
        10 * pow10((n - 1) as nat)
    }
}

/// Dynamic truncation (RFC 4226 §5.3): the low half of the last byte selects a
/// 4-byte window, whose top bit is masked off; of the number that it holds the
/// last digits are kept.
pub open spec fn truncated(digest: Seq<u8>, digits: nat) -> int {
    let o = digest.last() as int % 16;
    ((digest[o] as int % 128) * 0x100_0000 + digest[o + 1] as int * 0x1_0000 + digest[o + 2] as int
        * 0x100 + digest[o + 3] as int) % (pow10(digits) as int)
}

/// The HOTP code of a counter.
pub open spec fn hotp_code(secret: Seq<u8>, counter: u64, digits: nat) -> int {
    truncated(crypto::hmac_sha1(secret, be_bytes(counter)), digits)
}

fn ten_to(n: u32) -> (r: u32)
    requires
        n <= 9,
    ensures
        r == pow10(n as nat),
        1 <= r <= 1_000_000_000,
{
    proof {
        reveal_with_fuel(pow10, 10);
    }
    let mut r: u32 = 1;
    let mut i: u32 = 0;
    while i < n
        invariant
            i <= n <= 9,
            r == pow10(i as nat),
            r >= 1,
        decreases n - i,
    {
        proof {
            reveal_with_fuel(pow10, 10);
        }
        r = 10 * r;
        i += 1;
    }
    proof {
        reveal_with_fuel(pow10, 10);
    }
    r
}

/// The code that a digest stands for.
pub fn truncate(digest: &[u8], digits: u32) -> (r: u32)
    requires
        digest@.len() == 20,
        digits <= 9,
    ensures
        r == truncated(digest@, digits as nat),
        r < pow10(digits as nat),
{
    let o: usize = (digest[19] % 16) as usize;
    let binary: u32 = (digest[o] % 128) as u32 * 0x100_0000 + digest[o + 1] as u32 * 0x1_0000
        + digest[o + 2] as u32 * 0x100 + digest[o + 3] as u32;
    binary % ten_to(digits)
}

/// HOTP as defined by RFC 4226 — the primitive TOTP is built from.
pub fn hotp(secret: &[u8], counter: u64, digits: u32) -> (r: u32)
    requires
        digits <= 9,
    ensures
        r == hotp_code(secret@, counter, digits as nat),
        r < pow10(digits as nat),
{
    let message = to_be_bytes(counter);
    let digest = crypto::hmac_sha1_of(secret, message.as_slice());
    truncate(digest.as_slice(), digits)
}

/// The TOTP code valid at a given Unix time.
pub fn totp_at(secret: &[u8], unix_time: u64) -> (r: u32)
    ensures
        r == hotp_code(secret@, steps_at(unix_time), DIGITS as nat),
        r < 1_000_000,
{
    proof {
        reveal_with_fuel(pow10, 10);
    }
    hotp(secret, counter_at(unix_time), DIGITS)
}

/// So many zeros.
pub open spec fn zeros(n: int) -> Seq<char> {
    if n <= 0 {
        seq![]
    } else {
        Seq::new(n as nat, |i: int| '0')
    }
}

/// A code with leading zeros to six digits.
pub open spec fn code_text(code: nat) -> Seq<char> {
    zeros(6 - text::dec(code).len()) + text::dec(code)
}

/// Format a code with leading zeros, as the authenticator app displays it.
pub fn format_code(code: u32) -> (r: String)
    ensures
        r@ == code_text(code as nat),
{
    let digits = text::dec_string(code as u64);
    let n: usize = text::chars_of(digits.as_str()).len();
    let mut out = String::new();
    let mut i: usize = n;
    assert(out@ =~= zeros(0));
    while i < 6
        invariant
            n <= i,
            i <= 6 || i == n,
            out@ == zeros(i - n),
        decreases 6 - i,
    {
        out.push('0');
        i += 1;
        assert(out@ =~= zeros(i - n));
    }
    out.append(digits.as_str());
    out
}

#[derive(Debug, Clone, Copy, PartialEq, Eq, Structural)]
pub enum VerifyOutcome {
    /// Valid. The counter is returned so the caller can record it as consumed.
    Valid { counter: u64 },
    Invalid,
}

/// The last counter from `lo` to `hi` whose code is the one given.
pub open spec fn last_match(secret: Seq<u8>, code: Seq<char>, lo: u64, hi: u64) -> Option<u64>
    decreases hi,
{
    if hi < lo {
        None
    } else if code_text(hotp_code(secret, hi, 6) as nat) == code {
        Some(hi)
    } else if hi == lo {
        None
    } else {
        last_match(secret, code, lo, (hi - 1) as u64)
    }
}

pub open spec fn floor_step(now: u64, skew: u64) -> u64 {
    if steps_at(now) >= skew {
        (steps_at(now) - skew) as u64
    } else {
        0
    }
}

pub open spec fn ceil_step(now: u64, skew: u64) -> u64 {
    if steps_at(now) + skew <= u64::MAX {
        (steps_at(now) + skew) as u64
    } else {
        u64::MAX
    }
}

/// A submitted code has the expected shape: six decimal digits.
pub open spec fn code_shaped(code: Seq<char>) -> bool {
    code.len() == 6 && text::all_digits(code)
}

/// What a submitted text proves, `skew` steps either side of now.
pub open spec fn verified(secret: Seq<u8>, submitted: Seq<char>, now: u64, skew: u64) -> Option<
    u64,
> {
    let code = text::trim(submitted);
    if !code_shaped(code) {
        None
    } else {
        last_match(secret, code, floor_step(now, skew), ceil_step(now, skew))
    }
}

/// Verify a submitted code, tolerating `skew` steps either side of now.
///
/// Comparison is constant-time. A naive `==` on the digits leaks, through timing,
/// how much of a guess was correct — which over many attempts narrows a 6-digit
/// space considerably faster than brute force.
///
/// `skew` of 1 (±30 s) accommodates ordinary clock drift between the host and a
/// phone. Larger windows meaningfully widen the guessing surface: each extra
/// step is another valid code at any instant.
pub fn verify(secret: &[u8], submitted: &str, unix_time: u64, skew: u64) -> (r: VerifyOutcome)
    ensures
        match r {
            VerifyOutcome::Valid { counter } => verified(secret@, submitted@, unix_time, skew)
                == Some(counter),
            VerifyOutcome::Invalid => verified(secret@, submitted@, unix_time, skew) is None,
        },
{
    let code = text::trim_str(submitted);
    let v = text::chars_of(code.as_str());
    // Reject anything that is not exactly the expected shape before doing work.
    if v.len() != 6 {
        return VerifyOutcome::Invalid;
    }
    let n = text::leading_digits(v.as_slice());
    proof {
        text::lemma_digit_run(v@);
    }
    if n != 6 {
        assert(!text::is_digit(v@[n as int]));
        return VerifyOutcome::Invalid;
    }
    let centre = counter_at(unix_time);
    let lo: u64 = centre.saturating_sub(skew);
    let hi: u64 = centre.saturating_add(skew);
    let mut outcome = VerifyOutcome::Invalid;
    let mut counter: u64 = lo;
    let ghost want = text::trim(submitted@);
    loop
        invariant_except_break
            lo <= counter <= hi,
            code@ == want,
            match outcome {
                VerifyOutcome::Valid { counter: c } => counter > lo && last_match(
                    secret@,
                    want,
                    lo,
                    (counter - 1) as u64,
                ) == Some(c),
                VerifyOutcome::Invalid => counter > lo ==> last_match(
                    secret@,
                    want,
                    lo,
                    (counter - 1) as u64,
                ) is None,
            },
        ensures
            match outcome {
                VerifyOutcome::Valid { counter: c } => last_match(secret@, want, lo, hi) == Some(c),
                VerifyOutcome::Invalid => last_match(secret@, want, lo, hi) is None,
            },
        decreases hi - counter,
    {
        let expected = format_code(hotp(secret, counter, DIGITS));
        // Do not stop early on a match: returning at the first hit would make
        // the duration of a call depend on which step matched.
        if crypto::same_secret(expected.as_str(), code.as_str()) {
            outcome = VerifyOutcome::Valid { counter };
        }
        if counter == hi {
            break ;
        }
        counter += 1;
    }
    outcome
}

/// The letters and digits of RFC 4648 base32.
pub open spec fn base32_char(n: int) -> char {
    if n < 26 {
        (65 + n) as char
    } else {
        (24 + n) as char
    }
}

/// Two bytes from index `i` as one number, nothing standing for zero.
pub open spec fn window(data: Seq<u8>, i: int) -> int {
    (if i < data.len() {
        data[i] as int * 256
    } else {
        0
    }) + (if i + 1 < data.len() {
        data[i + 1] as int
    } else {
        0
    })
}

/// What to divide a 16-bit window by so that the five bits that start at bit
/// `off` come last.
pub open spec fn shift_for(off: int) -> int {
    if off == 0 {
        2048
    } else if off == 1 {
        1024
    } else if off == 2 {
        512
    } else if off == 3 {
        256
    } else if off == 4 {
        128
    } else if off == 5 {
        64
    } else if off == 6 {
        32
    } else {
        16
    }
}

/// The `k`th group of five bits.
pub open spec fn five_bits(data: Seq<u8>, k: int) -> int {
    window(data, 5 * k / 8) / shift_for(5 * k % 8) % 32
}

/// RFC 4648 base32, uppercase, unpadded: a character for every five bits, the
/// last filled up with zeros.
pub open spec fn base32(data: Seq<u8>) -> Seq<char> {
    Seq::new(((8 * data.len() + 4) / 5) as nat, |k: int| base32_char(five_bits(data, k)))
}

fn five_bits_at(data: &[u8], k: u128) -> (r: u8)
    requires
        k < 0x1_0000_0000_0000_0000_0000,
        5 * k / 8 < data@.len(),
    ensures
        r == five_bits(data@, k as int),
        r < 32,
{
    let i: usize = (5 * k / 8) as usize;
    let off: u128 = 5 * k % 8;
    let high: u32 = data[i] as u32 * 256;
    let low: u32 = if i < data.len() - 1 {
        data[i + 1] as u32
    } else {
        0
    };
    let d: u32 = if off == 0 {
        2048
    } else if off == 1 {
        1024
    } else if off == 2 {
        512
    } else if off == 3 {
        256
    } else if off == 4 {
        128
    } else if off == 5 {
        64
    } else if off == 6 {
        32
    } else {
        16
    };
    ((high + low) / d % 32) as u8
}

/// RFC 4648 base32, uppercase, unpadded — the encoding authenticator apps expect
/// for manual key entry.
pub fn base32_encode(data: &[u8]) -> (r: String)
    ensures
        r@ == base32(data@),
{
    let mut out = String::new();
    let n: u128 = (8 * data.len() as u128 + 4) / 5;
    let mut k: u128 = 0;
    assert(out@ =~= base32(data@).take(0));
    while k < n
        invariant
            k <= n,
            n == (8 * data@.len() + 4) / 5,
            data@.len() <= u64::MAX,
            out@ == base32(data@).take(k as int),
        decreases n - k,
    {
        let b = five_bits_at(data, k);
        let c = if b < 26 {
            (65 + b) as char
        } else {
            (24 + b) as char
        };
        out.push(c);
        assert(base32(data@).take(k + 1) =~= base32(data@).take(k as int).push(c));
        k += 1;
    }
    assert(base32(data@).take(k as int) =~= base32(data@));
    out
}

/// The `otpauth://` URI an authenticator app consumes.
pub open spec fn provisioning(secret: Seq<u8>, issuer: Seq<char>, account: Seq<char>) -> Seq<char> {
    "otpauth://totp/"@ + issuer + ":"@ + account + "?secret="@ + base32(secret) + "&issuer="@
        + issuer + "&algorithm=SHA1&digits=6&period=30"@
}

/// The `otpauth://` URI an authenticator app consumes, by QR or manual entry.
pub fn provisioning_uri(secret: &[u8], issuer: &str, account: &str) -> (r: String)
    ensures
        r@ == provisioning(secret@, issuer@, account@),
{
    let encoded = base32_encode(secret);
    let mut out = "otpauth://totp/".to_string();
    out.append(issuer);
    out.append(":");
    out.append(account);
    out.append("?secret=");
    out.append(encoded.as_str());
    out.append("&issuer=");
    out.append(issuer);
    out.append("&algorithm=SHA1&digits=6&period=30");
    out
}

// ---------------------------------------------------------------------------
// Laws
// ---------------------------------------------------------------------------

proof fn lemma_last_match(secret: Seq<u8>, code: Seq<char>, lo: u64, hi: u64)
    ensures
        last_match(secret, code, lo, hi) matches Some(c) ==> lo <= c <= hi && code_text(
            hotp_code(secret, c, 6) as nat,
        ) == code && forall|k: u64|
            c < k <= hi ==> code_text(hotp_code(secret, #[trigger] steps_id(k), 6) as nat) != code,
        last_match(secret, code, lo, hi) is None ==> forall|k: u64|
            lo <= k <= hi ==> code_text(hotp_code(secret, #[trigger] steps_id(k), 6) as nat)
                != code,
    decreases hi,
{
    if lo < hi {
        lemma_last_match(secret, code, lo, (hi - 1) as u64);
    }
}

/// The counter itself.
pub open spec fn steps_id(k: u64) -> u64 {
    k
}

/// A code is accepted exactly where it is the code of some step within the
/// skew; the counter that is returned is such a step.
pub proof fn acceptance_is_within_the_skew(
    secret: Seq<u8>,
    submitted: Seq<char>,
    now: u64,
    skew: u64,
)
    ensures
        verified(secret, submitted, now, skew) matches Some(c) ==> {
            &&& floor_step(now, skew) <= c <= ceil_step(now, skew)
            &&& code_text(hotp_code(secret, c, 6) as nat) == text::trim(submitted)
        },
        verified(secret, submitted, now, skew) is None && code_shaped(text::trim(submitted))
            ==> forall|k: u64|
            floor_step(now, skew) <= k <= ceil_step(now, skew) ==> code_text(
                hotp_code(secret, #[trigger] steps_id(k), 6) as nat,
            ) != text::trim(submitted),
{
    lemma_last_match(
        secret,
        text::trim(submitted),
        floor_step(now, skew),
        ceil_step(now, skew),
    );
}

/// A number below a million renders as six digits.
pub proof fn codes_are_six_digits(code: nat)
    requires
        code < 1_000_000,
    ensures
        code_shaped(code_text(code)),
{
    text::lemma_dec(code);
    lemma_dec_len(code);
    let c = code_text(code);
    let z = zeros(6 - text::dec(code).len());
    assert forall|i: int| 0 <= i < c.len() implies text::is_digit(#[trigger] c[i]) by {
        if i >= z.len() {
            assert(c[i] == text::dec(code)[i - z.len()]);
        }
    }
}

proof fn lemma_dec_len(n: nat)
    requires
        n < 1_000_000,
    ensures
        1 <= text::dec(n).len() <= 6,
{
    reveal_with_fuel(text::dec, 7);
}

/// The code shown now is accepted now, whatever the skew.
pub proof fn the_current_code_is_accepted(secret: Seq<u8>, now: u64, skew: u64)
    ensures
        verified(
            secret,
            code_text(hotp_code(secret, steps_at(now), 6) as nat),
            now,
            skew,
        ) is Some,
{
    reveal_with_fuel(pow10, 7);
    let n = hotp_code(secret, steps_at(now), 6);
    assert(0 <= n < 1_000_000);
    codes_are_six_digits(n as nat);
    let code = code_text(n as nat);
    assert(text::is_digit(code[0]) && text::is_digit(code[5]));
    text::lemma_trim_id(code);
    acceptance_is_within_the_skew(secret, code, now, skew);
    assert(steps_id(steps_at(now)) == steps_at(now));
}

/// The latest step that gives the code is told, among those no further off than
/// the skew; steps are thirty seconds long.
pub proof fn the_latest_step_is_told(
    secret: Seq<u8>,
    submitted: Seq<char>,
    now: u64,
    skew: u64,
    k: u64,
)
    requires
        now / 30 + skew <= u64::MAX,
        now / 30 - skew <= k <= now / 30 + skew,
        code_text(hotp_code(secret, k, 6) as nat) == text::trim(submitted),
        text::trim(submitted).len() == 6,
        text::all_digits(text::trim(submitted)),
    ensures
        verified(secret, submitted, now, skew) matches Some(c) && k <= c <= now / 30 + skew
            && code_text(hotp_code(secret, c, 6) as nat) == text::trim(submitted),
{
    lemma_latest(secret, text::trim(submitted), floor_step(now, skew), ceil_step(now, skew), k);
}

proof fn lemma_latest(secret: Seq<u8>, code: Seq<char>, lo: u64, hi: u64, k: u64)
    requires
        lo <= k <= hi,
        code_text(hotp_code(secret, k, 6) as nat) == code,
    ensures
        last_match(secret, code, lo, hi) matches Some(c) && k <= c <= hi && code_text(
            hotp_code(secret, c, 6) as nat,
        ) == code,
    decreases hi,
{
    if k < hi && code_text(hotp_code(secret, hi, 6) as nat) != code {
        lemma_latest(secret, code, lo, (hi - 1) as u64, k);
    }
}

/// A counter is written in eight bytes, the most significant first.
pub proof fn a_counter_is_its_bytes(n: u64)
    ensures
        be_bytes(n).len() == 8,
        ({
            let b = be_bytes(n);
            n == b[0] * 0x100_0000_0000_0000 + b[1] * 0x1_0000_0000_0000 + b[2] * 0x100_0000_0000
                + b[3] * 0x1_0000_0000 + b[4] * 0x100_0000 + b[5] * 0x1_0000 + b[6] * 0x100 + b[7]
        }),
{
    let m = n as int;
    assert(m == (m / 0x100) * 0x100 + m % 256);
    assert(m / 0x100 == (m / 0x1_0000) * 0x100 + m / 0x100 % 256);
    assert(m / 0x1_0000 == (m / 0x100_0000) * 0x100 + m / 0x1_0000 % 256);
    assert(m / 0x100_0000 == (m / 0x1_0000_0000) * 0x100 + m / 0x100_0000 % 256);
    assert(m / 0x1_0000_0000 == (m / 0x100_0000_0000) * 0x100 + m / 0x1_0000_0000 % 256);
    assert(m / 0x100_0000_0000 == (m / 0x1_0000_0000_0000) * 0x100 + m / 0x100_0000_0000 % 256);
    assert(m / 0x1_0000_0000_0000 == (m / 0x100_0000_0000_0000) * 0x100 + m / 0x1_0000_0000_0000
        % 256);
    assert(0 <= m / 0x100_0000_0000_0000 < 256);
}

/// A code is what four bytes of a digest hold, from where its last byte says, but
/// for their top bit, cut to its last six digits.
pub proof fn a_code_is_four_bytes_of_the_digest(digest: Seq<u8>, o: int)
    requires
        digest.len() == 20,
        o == digest[19] as int % 16,
    ensures
        truncated(digest, 6) == (digest[o] * 0x100_0000 + digest[o + 1] * 0x1_0000 + digest[o + 2]
            * 0x100 + digest[o + 3]) % 0x8000_0000 % 1_000_000,
{
    reveal_with_fuel(pow10, 7);
    let low = digest[o + 1] * 0x1_0000 + digest[o + 2] * 0x100 + digest[o + 3];
    let d = digest[o] as int;
    assert(0 <= low < 0x100_0000);
    assert(d * 0x100_0000 + low == (d / 128) * 0x8000_0000 + ((d % 128) * 0x100_0000 + low));
    assert((d * 0x100_0000 + low) % 0x8000_0000 == (d % 128) * 0x100_0000 + low) by {
        vstd::arithmetic::div_mod::lemma_fundamental_div_mod_converse(
            d * 0x100_0000 + low,
            0x8000_0000,
            d / 128,
            (d % 128) * 0x100_0000 + low,
        );
    }
}

/// A code is shown in six digits that read as it.
pub proof fn a_code_is_shown_in_six_digits(code: nat)
    requires
        code < 1_000_000,
    ensures
        code_text(code).len() == 6,
        text::all_digits(code_text(code)),
        text::dec_val(code_text(code)) == code,
{
    codes_are_six_digits(code);
    text::lemma_dec(code);
    lemma_leading_zeros(6 - text::dec(code).len(), text::dec(code));
}

proof fn lemma_leading_zeros(n: int, s: Seq<char>)
    ensures
        text::dec_val(zeros(n) + s) == text::dec_val(s),
    decreases s.len(), n,
{
    let t = zeros(n) + s;
    if s.len() > 0 {
        lemma_leading_zeros(n, s.drop_last());
        assert(t.drop_last() =~= zeros(n) + s.drop_last());
        assert(t.last() == s.last());
    } else if n > 0 {
        lemma_leading_zeros(n - 1, s);
        assert(t.drop_last() =~= zeros(n - 1) + s);
        assert(t.last() == '0');
    } else {
        assert(t =~= s);
    }
}

/// Eight characters of the encoding carry the forty bits of five bytes, the most
/// significant first; a character is a letter for the first twenty-six values,
/// and a digit from two on for the rest.
pub proof fn five_bytes_are_eight_characters(data: Seq<u8>, j: int)
    requires
        0 <= j,
        5 * j + 5 <= data.len(),
    ensures
        ({
            let f = |i: int| five_bits(data, 8 * j + i);
            let b = |i: int| data[5 * j + i] as int;
            ((((((f(0) * 32 + f(1)) * 32 + f(2)) * 32 + f(3)) * 32 + f(4)) * 32 + f(5)) * 32 + f(6))
                * 32 + f(7) == (((b(0) * 256 + b(1)) * 256 + b(2)) * 256 + b(3)) * 256 + b(4)
        }),
        forall|i: int|
            0 <= i < 8 ==> base32(data)[8 * j + i] == base32_char(
                #[trigger] five_bits(data, 8 * j + i),
            ) && 0 <= five_bits(data, 8 * j + i) < 32,
{
    let b0 = data[5 * j] as int;
    let b1 = data[5 * j + 1] as int;
    let b2 = data[5 * j + 2] as int;
    let b3 = data[5 * j + 3] as int;
    let b4 = data[5 * j + 4] as int;
    lemma_group(data, j, 0, 0, 0);
    lemma_group(data, j, 1, 0, 5);
    lemma_group(data, j, 2, 1, 2);
    lemma_group(data, j, 3, 1, 7);
    lemma_group(data, j, 4, 2, 4);
    lemma_group(data, j, 5, 3, 1);
    lemma_group(data, j, 6, 3, 6);
    lemma_group(data, j, 7, 4, 3);
    lemma_forty_bits(b0, b1, b2, b3, b4);
    lemma_cut(b0, b1);
    lemma_cut(b1, b2);
    lemma_cut(b2, b3);
    lemma_cut(b3, b4);
    if 5 * j + 5 < data.len() {
        lemma_cut(b4, data[5 * j + 5] as int);
    } else {
        lemma_cut(b4, 0);
    }
    assert(8 * j + 7 < (8 * data.len() + 4) / 5);
}

proof fn lemma_group(data: Seq<u8>, j: int, i: int, q: int, off: int)
    requires
        0 <= j,
        5 * i == 8 * q + off,
        0 <= off < 8,
    ensures
        five_bits(data, 8 * j + i) == window(data, 5 * j + q) / shift_for(off) % 32,
{
    assert(5 * (8 * j + i) / 8 == 5 * j + q);
    assert(5 * (8 * j + i) % 8 == off);
}

/// Five bits out of two bytes, from each place where they can begin.
proof fn lemma_cut(a: int, b: int)
    requires
        0 <= a < 256,
        0 <= b < 256,
    ensures
        (a * 256 + b) / 2048 % 32 == a / 8,
        (a * 256 + b) / 64 % 32 == a % 8 * 4 + b / 64,
        (a * 256 + b) / 512 % 32 == a / 2 % 32,
        (a * 256 + b) / 16 % 32 == a % 2 * 16 + b / 16,
        (a * 256 + b) / 128 % 32 == a % 16 * 2 + b / 128,
        (a * 256 + b) / 1024 % 32 == a / 4 % 32,
        (a * 256 + b) / 32 % 32 == a % 4 * 8 + b / 32,
        (a * 256 + b) / 256 % 32 == a % 32,
{
    lemma_high(a, b);
    lemma_across(a, b);
    lemma_low(a / 8, a % 8 * 4 + b / 64);
    lemma_low(a / 2, a % 2 * 16 + b / 16);
    lemma_low(a / 16, a % 16 * 2 + b / 128);
    lemma_low(a / 4, a % 4 * 8 + b / 32);
}

proof fn lemma_low(q: int, r: int)
    requires
        0 <= r < 32,
    ensures
        (q * 32 + r) % 32 == r,
{
}

/// Where the bits lie in the first byte.
proof fn lemma_high(a: int, b: int)
    requires
        0 <= a < 256,
        0 <= b < 256,
    ensures
        (a * 256 + b) / 2048 == a / 8,
        (a * 256 + b) / 1024 == a / 4,
        (a * 256 + b) / 512 == a / 2,
        (a * 256 + b) / 256 == a,
{
}

/// Where they reach into the second.
proof fn lemma_across(a: int, b: int)
    requires
        0 <= a < 256,
        0 <= b < 256,
    ensures
        (a * 256 + b) / 64 == (a / 8) * 32 + (a % 8 * 4 + b / 64),
        (a * 256 + b) / 16 == (a / 2) * 32 + (a % 2 * 16 + b / 16),
        (a * 256 + b) / 128 == (a / 16) * 32 + (a % 16 * 2 + b / 128),
        (a * 256 + b) / 32 == (a / 4) * 32 + (a % 4 * 8 + b / 32),
{
    lemma_reach(a, b, 64, 4);
    lemma_reach(a, b, 16, 16);
    lemma_reach(a, b, 128, 2);
    lemma_reach(a, b, 32, 8);
}

proof fn lemma_reach(a: int, b: int, d: int, k: int)
    requires
        0 <= a < 256,
        0 <= b < 256,
        d > 0,
        d * k == 256,
    ensures
        (a * 256 + b) / d == a * k + b / d,
{
    assert((a * k) * d + b == a * 256 + b) by (nonlinear_arith)
        requires
            d * k == 256,
    ;
    vstd::arithmetic::div_mod::lemma_hoist_over_denominator(b, a * k, d as nat);
}

proof fn lemma_forty_bits(b0: int, b1: int, b2: int, b3: int, b4: int)
    requires
        0 <= b0 < 256,
        0 <= b1 < 256,
        0 <= b2 < 256,
        0 <= b3 < 256,
        0 <= b4 < 256,
    ensures
        (((((((b0 / 8) * 32 + (b0 % 8 * 4 + b1 / 64)) * 32 + b1 / 2 % 32) * 32 + (b1 % 2 * 16 + b2
            / 16)) * 32 + (b2 % 16 * 2 + b3 / 128)) * 32 + b3 / 4 % 32) * 32 + (b3 % 4 * 8 + b4 / 32))
            * 32 + b4 % 32 == (((b0 * 256 + b1) * 256 + b2) * 256 + b3) * 256 + b4,
{
    let f = (b0 / 8) * 32 + (b0 % 8 * 4 + b1 / 64);
    assert(f == b0 * 4 + b1 / 64);
    let g = f * 32 + b1 / 2 % 32;
    assert(g == b0 * 128 + b1 / 2);
    let h = g * 32 + (b1 % 2 * 16 + b2 / 16);
    assert(h == b0 * 4096 + b1 * 16 + b2 / 16);
    let k = h * 32 + (b2 % 16 * 2 + b3 / 128);
    assert(k == b0 * 131072 + b1 * 512 + b2 * 2 + b3 / 128);
    let m = k * 32 + b3 / 4 % 32;
    assert(m == b0 * 4194304 + b1 * 16384 + b2 * 64 + b3 / 4);
    let n = m * 32 + (b3 % 4 * 8 + b4 / 32);
    assert(n == b0 * 134217728 + b1 * 524288 + b2 * 2048 + b3 * 8 + b4 / 32);
}

/// The alphabet of the encoding.
pub proof fn the_alphabet_is_letters_and_then_digits(n: int)
    requires
        0 <= n < 32,
    ensures
        n < 26 ==> base32_char(n) as int == 'A' as int + n,
        n >= 26 ==> base32_char(n) as int == '2' as int + (n - 26),
{
}

} // verus!

//! Wall-clock readings: the time of day stamped on console lines and the
//! sub-second nanoseconds that seed fresh asset ids.
use vstd::prelude::*;

verus! {

#[verifier::external_type_specification]
#[verifier::external_body]
pub struct ExSystemTime(std::time::SystemTime);

/// `SystemTime::now`: the current wall-clock time. Nothing is claimed of
/// it.
#[verifier::external_body]
fn system_now() -> std::time::SystemTime {
    std::time::SystemTime::now()
}

/// `SystemTime::duration_since(UNIX_EPOCH)`: the time elapsed since the
/// Unix epoch, `None` when the clock reads earlier than that. Nothing is
/// claimed of the value, which depends on the clock.
#[verifier::external_body]
fn since_unix_epoch(t: &std::time::SystemTime) -> Option<std::time::Duration> {
    t.duration_since(std::time::UNIX_EPOCH).ok()
}

/// `Duration::as_secs`: the whole seconds of a duration. The duration is
/// opaque here, so nothing is claimed of the number.
#[verifier::external_body]
fn duration_secs(d: &std::time::Duration) -> u64 {
    d.as_secs()
}

/// `Duration::subsec_nanos`: the fractional part of a duration in
/// nanoseconds, which its documentation bounds below one billion.
#[verifier::external_body]
fn duration_subsec_nanos(d: &std::time::Duration) -> (r: u32)
    ensures
        r < 1_000_000_000,
{
    d.subsec_nanos()
}

/// Whole seconds since the Unix epoch now (0 when the clock reads earlier).
fn now_unix_secs() -> u64 {
    let now = system_now();
    match since_unix_epoch(&now) {
        Some(d) => duration_secs(&d),
        None => 0,
    }
}

/// The nanoseconds within the current second (1 when the clock reads
/// earlier than the Unix epoch).
pub(crate) fn now_subsec_nanos() -> (r: u32)
    ensures
        r < 1_000_000_000,
{
    let now = system_now();
    match since_unix_epoch(&now) {
        Some(d) => duration_subsec_nanos(&d),
        None => 1,
    }
}

/// The two decimal digits of `n` (`{:02}` for `n < 100`).
pub open spec fn two_digits(n: nat) -> Seq<char> {
    seq![((n / 10) + 48) as char, ((n % 10) + 48) as char]
}

/// `HH:MM:SS` of a second of the day.
pub open spec fn hms_of(secs: nat) -> Seq<char> {
    two_digits(secs / 3600) + seq![':'] + two_digits((secs % 3600) / 60) + seq![':'] + two_digits(secs % 60)
}

fn push_two_digits(out: &mut String, n: u64)
    requires
        n < 100,
    ensures
        final(out)@ == old(out)@ + two_digits(n as nat),
{
    let hi = ((n / 10) as u8 + 48) as char;
    let lo = ((n % 10) as u8 + 48) as char;
    crate::text::push_char(out, hi);
    crate::text::push_char(out, lo);
    assert(final(out)@ =~= old(out)@ + two_digits(n as nat));
}

/// Formats a second of the day as `HH:MM:SS`.
pub fn hms(secs: u64) -> (r: String)
    requires
        secs < 86_400,
    ensures
        r@ == hms_of(secs as nat),
{
    let mut out = String::new();
    push_two_digits(&mut out, secs / 3600);
    crate::text::push_char(&mut out, ':');
    push_two_digits(&mut out, (secs % 3600) / 60);
    crate::text::push_char(&mut out, ':');
    push_two_digits(&mut out, secs % 60);
    assert(out@ =~= hms_of(secs as nat));
    out
}

/// The current time of day (UTC) as `HH:MM:SS`.
pub fn timestamp() -> (r: String)
    ensures
        exists|secs: nat| secs < 86_400 && r@ == hms_of(secs),
{
    let secs = now_unix_secs() % 86_400;
    let r = hms(secs);
    assert(r@ == hms_of(secs as nat));
    r
}

} // verus!

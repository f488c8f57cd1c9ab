//! Wall-clock stamps and the random parts of identifiers.
use crate::text::{append_decimal, decimal, digit, is_digit};
use vstd::prelude::*;
use vstd::string::*;

verus! {

/// `std::time::SystemTime::now`, as milliseconds since the Unix epoch: the single
/// source of time stamps. Nothing is claimed of the result, which is the clock's;
/// a clock set before the epoch ends the program.
#[verifier::external_body]
pub fn now_unix_ms() -> (r: u128) {
    std::time::SystemTime::now().duration_since(std::time::UNIX_EPOCH).expect(
        "system clock before Unix epoch",
    ).as_millis()
}

/// Two decimal digits of a number below 100.
pub open spec fn two_digits(n: int) -> Seq<char> {
    seq![digit(n / 10), digit(n % 10)]
}

/// The time of day of a moment, as `HH:MM:SS`.
pub open spec fn time_of_day(unix_ms: int) -> Seq<char> {
    let secs = unix_ms / 1000;
    two_digits(secs / 3600 % 24) + ":"@ + two_digits(secs / 60 % 60) + ":"@ + two_digits(secs % 60)
}

fn append_two_digits(out: &mut String, n: u128)
    requires
        n < 100,
    ensures
        final(out)@ == old(out)@ + two_digits(n as int),
{
    append_decimal(out, n / 10);
    append_decimal(out, n % 10);
    proof {
        assert(out@ =~= old(out)@ + two_digits(n as int));
    }
}

/// The UTC time of day of a moment, as `HH:MM:SS`.
pub fn hms(unix_ms: u128) -> (r: String)
    ensures
        r@ == time_of_day(unix_ms as int),
{
    let secs: u128 = unix_ms / 1000;
    let mut out: String = String::new();
    append_two_digits(&mut out, secs / 3600 % 24);
    out.append(":");
    append_two_digits(&mut out, secs / 60 % 60);
    out.append(":");
    append_two_digits(&mut out, secs % 60);
    proof {
        assert(out@ =~= time_of_day(unix_ms as int));
    }
    out
}

/// The current UTC time of day, as `HH:MM:SS`.
pub fn utc_hms() -> (r: String)
    ensures
        exists|ms: u128| r@ == #[trigger] time_of_day(ms as int),
{
    let ms: u128 = now_unix_ms();
    hms(ms)
}

/// Whether a text is laid out as a UUID: groups of 8, 4, 4, 4 and 12 lower-case
/// hexadecimal digits, with hyphens between them.
pub open spec fn is_uuid_text(t: Seq<char>) -> bool {
    &&& t.len() == 36
    &&& forall|i: int|
        0 <= i < 36 ==> if i == 8 || i == 13 || i == 18 || i == 23 {
            #[trigger] t[i] == '-'
        } else {
            is_lower_hex(t[i])
        }
}

/// Whether a character is a lower-case hexadecimal digit.
pub open spec fn is_lower_hex(c: char) -> bool {
    is_digit(c) || ('a' <= c && c <= 'f')
}

/// `uuid::Uuid::new_v4`, in its hyphenated text form: random, so only the layout
/// is claimed, which every outcome has. A machine that gives no random bytes ends
/// the program.
#[verifier::external_body]
fn random_uuid() -> (r: String)
    ensures
        is_uuid_text(r@),
{
    uuid::Uuid::new_v4().to_string()
}

/// A fresh nonce: a random UUID.
pub fn fresh_nonce() -> (r: String)
    ensures
        is_uuid_text(r@),
{
    random_uuid()
}

/// The run id of a moment and a random suffix.
pub open spec fn run_id_text(unix_ms: nat, suffix: Seq<char>) -> Seq<char> {
    decimal(unix_ms) + "-"@ + suffix
}

/// The run id of a moment and a UUID: the milliseconds, and the first eight
/// characters of the UUID.
pub fn run_id_at(unix_ms: u128, uuid: &str) -> (r: String)
    requires
        uuid@.len() >= 8,
    ensures
        r@ == run_id_text(unix_ms as nat, uuid@.take(8)),
{
    let mut out: String = String::new();
    append_decimal(&mut out, unix_ms);
    out.append("-");
    let suffix: &str = uuid.substring_char(0, 8);
    out.append(suffix);
    proof {
        assert(suffix@ =~= uuid@.take(8));
        assert(out@ =~= run_id_text(unix_ms as nat, uuid@.take(8)));
    }
    out
}

/// A run id that sorts by time: the current milliseconds and eight random
/// hexadecimal digits.
pub fn run_id() -> (r: String)
    ensures
        exists|ms: u128, suffix: Seq<char>|
            {
                &&& r@ == #[trigger] run_id_text(ms as nat, suffix)
                &&& suffix.len() == 8
                &&& forall|i: int| 0 <= i < 8 ==> is_lower_hex(#[trigger] suffix[i])
            },
{
    let ms: u128 = now_unix_ms();
    let uuid: String = random_uuid();
    let r: String = run_id_at(ms, uuid.as_str());
    proof {
        let suffix = uuid@.take(8);
        assert forall|i: int| 0 <= i < 8 implies is_lower_hex(#[trigger] suffix[i]) by {
            assert(suffix[i] == uuid@[i]);
        }
        assert(r@ == run_id_text(ms as nat, suffix));
    }
    r
}

} // verus!

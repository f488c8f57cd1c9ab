//! What judging a reply is for: which invocations are accepted, and what is told of
//! the others; and what moments and runs are called.
use crate::clock::{is_lower_hex, is_uuid_text, run_id_text, time_of_day, two_digits};
use crate::json::{field_of, integer_of, json_field, json_fields, string_field, JsonView};
use crate::platform::{
    envelope_complaint, http_complaint, invoke_complaint, status_found, InvokeResult,
};
use crate::rate_limiter::reserved;
use crate::report::digits_value;
use crate::run_rules::ends_with;
use crate::text::{decimal, decimal_int, digit, has_text};
use crate::text_lemmas::lemma_holds_middle;
use crate::text_rules::{
    law_digits_in_order, law_rendering_denotes_the_number, law_rendering_is_read_back,
};
use vstd::prelude::*;
use vstd::string::*;

verus! {

/// An invocation is accepted exactly where its status is 200, the function reports no
/// error, and, behind an HTTP front, there is a reply whose status is an integer from
/// 200 to 299.
pub proof fn law_when_an_invocation_is_accepted(
    name: Seq<char>,
    http_fronted: bool,
    res: InvokeResult,
)
    ensures
        invoke_complaint(name, http_fronted, res) is None <==> {
            &&& res.status_code == 200
            &&& res.function_error is None
            &&& http_fronted ==> {
                &&& res.payload is Some
                &&& match json_field(res.payload->0@, "statusCode"@) {
                    Some(Some(JsonView::Number(t))) => match integer_of(
                        Some(JsonView::Number(t)),
                    ) {
                        Some(n) => 200 <= n <= 299,
                        None => false,
                    },
                    _ => false,
                }
            }
        },
{
}

/// What is told of an invocation that is not accepted: its function; then the status it
/// came with, or the error that the function reports, or what its reply lacks; and the
/// log.
pub proof fn law_what_is_told_of_a_bad_invocation(
    name: Seq<char>,
    http_fronted: bool,
    res: InvokeResult,
)
    requires
        res.status_code != 200 || res.function_error is Some,
    ensures
        invoke_complaint(name, http_fronted, res) is Some,
        ({
            let m = invoke_complaint(name, http_fronted, res)->0;
            &&& has_text(m, name)
            &&& ends_with(m, res.log_tail@)
            &&& res.status_code != 200 ==> has_text(m, decimal_int(res.status_code as int))
            &&& res.status_code == 200 ==> has_text(m, res.function_error->0@)
        }),
{
    let m = invoke_complaint(name, http_fronted, res)->0;
    let log = res.log_tail@;
    assert(m.skip(m.len() - log.len()) =~= log);
    let none = Seq::<char>::empty();
    if res.status_code != 200 {
        let code = decimal_int(res.status_code as int);
        let a = " returned status "@;
        let b = " (expected 200); log:\n"@;
        lemma_holds_middle(none, name, a + code + b + log);
        assert(m =~= none + name + (a + code + b + log));
        lemma_holds_middle(name + a, code, b + log);
        assert(m =~= name + a + code + (b + log));
    } else {
        let e = res.function_error->0@;
        let a = " reported FunctionError="@;
        let b = "; log:\n"@;
        lemma_holds_middle(none, name, a + e + b + log);
        assert(m =~= none + name + (a + e + b + log));
        lemma_holds_middle(name + a, e, b + log);
        assert(m =~= name + a + e + (b + log));
    }
}

/// What is told of an HTTP reply that is no success: its function, and its status where
/// it has one, else its text.
pub proof fn law_what_is_told_of_a_bad_reply(
    name: Seq<char>,
    payload: Seq<char>,
    log_tail: Seq<char>,
    found: Option<Option<int>>,
)
    ensures
        match found {
            Some(Some(status)) => if 200 <= status < 300 {
                envelope_complaint(name, payload, log_tail, found) is None
            } else {
                &&& envelope_complaint(name, payload, log_tail, found) is Some
                &&& has_text(
                    envelope_complaint(name, payload, log_tail, found)->0,
                    decimal_int(status),
                )
                &&& ends_with(envelope_complaint(name, payload, log_tail, found)->0, log_tail)
            },
            _ => {
                &&& envelope_complaint(name, payload, log_tail, found) is Some
                &&& ends_with(envelope_complaint(name, payload, log_tail, found)->0, payload)
            },
        },
{
    match found {
        Some(Some(status)) => {
            if !(200 <= status && status < 300) {
                let m = envelope_complaint(name, payload, log_tail, found)->0;
                assert(m.skip(m.len() - log_tail.len()) =~= log_tail);
                let a = " (HTTP-fronted) handler returned HTTP "@;
                let b =
                    " (expected 2xx): the server framework serialized an error into the response body, which the outer invoke does not reflect; body:\n"@;
                let c = "\nlog:\n"@;
                lemma_holds_middle(name + a, decimal_int(status), b + payload + c + log_tail);
                assert(m =~= name + a + decimal_int(status) + (b + payload + c + log_tail));
            }
        },
        _ => {
            let m = envelope_complaint(name, payload, log_tail, found)->0;
            assert(m.skip(m.len() - payload.len()) =~= payload);
        },
    }
}

/// The status of a reply is the number that it prints under `statusCode`; a reply that
/// is no JSON has none to look for.
pub proof fn law_which_status_is_found(n: i64, t: Seq<char>, b: bool)
    ensures
        status_found(None) is None,
        status_found(Some(None)) == Some(None::<int>),
        status_found(Some(Some(JsonView::Number(decimal_int(n as int))))) == Some(Some(n as int)),
        status_found(Some(Some(JsonView::Text(t)))) == Some(None::<int>),
        status_found(Some(Some(JsonView::Null))) == Some(None::<int>),
        status_found(Some(Some(JsonView::Bool(b)))) == Some(None::<int>),
        status_found(Some(Some(JsonView::Object(t)))) == Some(None::<int>),
{
    law_rendering_is_read_back(n as int);
}

/// Without a reply there is nothing to accept behind an HTTP front.
pub proof fn law_no_reply_is_no_success(name: Seq<char>, res: InvokeResult)
    requires
        res.payload is None,
    ensures
        http_complaint(name, res) is Some,
        ends_with(http_complaint(name, res)->0, res.log_tail@),
{
    let m = http_complaint(name, res)->0;
    let log = res.log_tail@;
    assert(m.skip(m.len() - log.len()) =~= log);
}

/// A field is read out of a text that is JSON and has it, and a string only where the
/// field is one.
pub proof fn law_which_fields_are_found(text: Seq<char>, field: Seq<char>)
    ensures
        json_fields(text) is None ==> json_field(text, field) is None && field_of(text, field)
            is None && string_field(text, field) is None,
        json_fields(text) is Some && !json_fields(text)->0.dom().contains(field) ==> json_field(
            text,
            field,
        ) == Some(None::<JsonView>) && field_of(text, field) is None && string_field(text, field)
            is None,
        json_fields(text) is Some && json_fields(text)->0.dom().contains(field) ==> {
            let v = json_fields(text)->0[field];
            &&& json_field(text, field) == Some(Some(v))
            &&& field_of(text, field) == Some(v)
            &&& v is Text ==> string_field(text, field) == Some(v->Text_0)
            &&& !(v is Text) ==> string_field(text, field) is None
        },
{
}

/// A call starts at its slot or when it arrives, whichever is later, and the next slot
/// is an interval after that.
pub proof fn law_when_a_call_starts(interval: int, slot: int, now: int)
    ensures
        ({
            let (at, next) = reserved(interval, slot, now);
            &&& at >= slot && at >= now
            &&& at == slot || at == now
            &&& next == at + interval
        }),
{
}

/// The time of day has two digits for the hour, the minute and the second of the
/// moment, which tell how far into the day it is.
pub proof fn law_time_of_day(unix_ms: int)
    requires
        0 <= unix_ms,
    ensures
        ({
            let t = time_of_day(unix_ms);
            let secs = unix_ms / 1000;
            let h = digits_value(seq![t[0], t[1]]);
            let m = digits_value(seq![t[3], t[4]]);
            let s = digits_value(seq![t[6], t[7]]);
            &&& t.len() == 8
            &&& t[2] == ':' && t[5] == ':'
            &&& 0 <= h < 24 && 0 <= m < 60 && 0 <= s < 60
            &&& h * 3600 + m * 60 + s == secs % 86_400
        }),
{
    reveal_strlit(":");
    let t = time_of_day(unix_ms);
    let secs = unix_ms / 1000;
    let h = secs / 3600 % 24;
    let m = secs / 60 % 60;
    let s = secs % 60;
    lemma_two_digits(h);
    lemma_two_digits(m);
    lemma_two_digits(s);
    assert(seq![t[0], t[1]] =~= two_digits(h));
    assert(seq![t[3], t[4]] =~= two_digits(m));
    assert(seq![t[6], t[7]] =~= two_digits(s));
}

proof fn lemma_two_digits(n: int)
    requires
        0 <= n < 100,
    ensures
        digits_value(two_digits(n)) == n,
{
    let t = two_digits(n);
    let one = t.drop_last();
    assert(one =~= seq![digit(n / 10)]);
    assert(one.drop_last() =~= Seq::<char>::empty());
    assert(digits_value(one.drop_last()) == 0);
    assert(one.last() == digit(n / 10));
    assert(t.last() == digit(n % 10));
    law_digits_in_order(n / 10);
    law_digits_in_order(n % 10);
    assert(digits_value(one) == n / 10);
    assert(digits_value(t) == digits_value(one) * 10 + n % 10);
}

/// A run is called by its moment and a suffix, set apart by a hyphen, from which both
/// can be told.
pub proof fn law_how_runs_are_called(unix_ms: nat, suffix: Seq<char>)
    ensures
        ends_with(run_id_text(unix_ms, suffix), suffix),
        ({
            let n = decimal(unix_ms).len() as int;
            &&& n < run_id_text(unix_ms, suffix).len()
            &&& digits_value(run_id_text(unix_ms, suffix).take(n)) == unix_ms
            &&& run_id_text(unix_ms, suffix)[n] == '-'
            &&& run_id_text(unix_ms, suffix).skip(n + 1) == suffix
        }),
{
    reveal_strlit("-");
    let t = run_id_text(unix_ms, suffix);
    let n = decimal(unix_ms).len() as int;
    law_rendering_denotes_the_number(unix_ms);
    assert(t.take(n) =~= decimal(unix_ms));
    assert(t.skip(n + 1) =~= suffix);
    assert(t.skip(t.len() - suffix.len()) =~= suffix);
}

/// The layout of a UUID: 36 characters, hyphens at four places, and elsewhere the
/// digits and the letters `a` to `f`.
pub proof fn law_layout_of_a_uuid(t: Seq<char>, i: int)
    requires
        is_uuid_text(t),
        0 <= i < 36,
    ensures
        t.len() == 36,
        i == 8 || i == 13 || i == 18 || i == 23 ==> t[i] == '-',
        i != 8 && i != 13 && i != 18 && i != 23 ==> ('0' <= t[i] && t[i] <= '9') || ('a' <= t[i]
            && t[i] <= 'f'),
{
    assert(is_lower_hex(t[i]) || t[i] == '-');
}

} // verus!

//! Judging a single invocation: status, function error, and the status inside
//! the reply of a scenario behind an HTTP front.
use crate::cell::Cell;
use crate::json::{field_in, integer_of, json_field, to_integer, JsonView};
use crate::text::{decimal_int, decimal_int_string};
use vstd::prelude::*;
use vstd::string::*;

verus! {

/// The result of a single invocation, with the decoded log tail.
#[derive(Debug, Clone)]
pub struct InvokeResult {
    pub status_code: i32,
    pub function_error: Option<String>,
    /// The decoded log tail.
    pub log_tail: String,
    /// The decoded reply of the handler, where there is one.
    pub payload: Option<String>,
}

/// The status that is found in the reply of a function: nothing where the reply is
/// no JSON; else the integer under its `statusCode`, where it has one.
pub open spec fn status_found(field: Option<Option<JsonView>>) -> Option<Option<int>> {
    match field {
        None => None,
        Some(v) => Some(integer_of(v)),
    }
}

/// What is wrong with the HTTP reply of a function, given the status found in it:
/// `found` is nothing for a reply that is no JSON, and holds nothing for one
/// without an integer status.
pub open spec fn envelope_complaint(
    name: Seq<char>,
    payload: Seq<char>,
    log_tail: Seq<char>,
    found: Option<Option<int>>,
) -> Option<Seq<char>> {
    match found {
        None => Some(name + " (HTTP-fronted) response is not JSON: "@ + payload),
        Some(None) => Some(name + " (HTTP-fronted) response has no integer statusCode: "@ + payload),
        Some(Some(status)) => if 200 <= status && status < 300 {
            None
        } else {
            Some(
                name + " (HTTP-fronted) handler returned HTTP "@ + decimal_int(status)
                    + " (expected 2xx): the server framework serialized an error into the response body, which the outer invoke does not reflect; body:\n"@
                    + payload + "\nlog:\n"@ + log_tail,
            )
        },
    }
}

/// A status that was found, as a number.
pub open spec fn found_view(found: Option<Option<i64>>) -> Option<Option<int>> {
    match found {
        None => None,
        Some(None) => Some(None),
        Some(Some(n)) => Some(Some(n as int)),
    }
}

/// Accepts a reply exactly where the status found in it is a success.
pub fn check_envelope_status(
    name: &str,
    payload: &str,
    log_tail: &str,
    found: Option<Option<i64>>,
) -> (r: Result<(), String>)
    ensures
        match r {
            Ok(_) => envelope_complaint(name@, payload@, log_tail@, found_view(found)) is None,
            Err(m) => envelope_complaint(name@, payload@, log_tail@, found_view(found)) == Some(m@),
        },
{
    let mut out: String = name.to_owned();
    match found {
        None => {
            out.append(" (HTTP-fronted) response is not JSON: ");
            out.append(payload);
            Err(out)
        },
        Some(None) => {
            out.append(" (HTTP-fronted) response has no integer statusCode: ");
            out.append(payload);
            Err(out)
        },
        Some(Some(status)) => {
            if 200 <= status && status < 300 {
                Ok(())
            } else {
                out.append(" (HTTP-fronted) handler returned HTTP ");
                out.append(decimal_int_string(status).as_str());
                out.append(
                    " (expected 2xx): the server framework serialized an error into the response body, which the outer invoke does not reflect; body:\n",
                );
                out.append(payload);
                out.append("\nlog:\n");
                out.append(log_tail);
                Err(out)
            }
        },
    }
}

/// What is wrong with the HTTP reply of a function.
pub open spec fn http_complaint(name: Seq<char>, res: InvokeResult) -> Option<Seq<char>> {
    match res.payload {
        None => Some(
            name + " (HTTP-fronted) returned no response payload to validate; log:\n"@
                + res.log_tail@,
        ),
        Some(p) => envelope_complaint(
            name,
            p@,
            res.log_tail@,
            status_found(json_field(p@, "statusCode"@)),
        ),
    }
}

/// Accepts an HTTP reply exactly where there is one and the status in it is a
/// success: the server can put a failure into the reply of an invocation that
/// itself succeeds.
pub fn check_http_envelope_ok(name: &str, res: &InvokeResult) -> (r: Result<(), String>)
    ensures
        match r {
            Ok(_) => http_complaint(name@, *res) is None,
            Err(m) => http_complaint(name@, *res) == Some(m@),
        },
{
    match &res.payload {
        None => {
            let mut out: String = name.to_owned();
            out.append(" (HTTP-fronted) returned no response payload to validate; log:\n");
            out.append(res.log_tail.as_str());
            Err(out)
        },
        Some(payload) => {
            let found: Option<Option<i64>> = match field_in(payload.as_str(), "statusCode") {
                None => None,
                Some(value) => Some(to_integer(&value)),
            };
            check_envelope_status(name, payload.as_str(), res.log_tail.as_str(), found)
        },
    }
}

/// What is wrong with an invocation of the named function.
pub open spec fn invoke_complaint(
    name: Seq<char>,
    http_fronted: bool,
    res: InvokeResult,
) -> Option<Seq<char>> {
    if res.status_code != 200 {
        Some(
            name + " returned status "@ + decimal_int(res.status_code as int)
                + " (expected 200); log:\n"@ + res.log_tail@,
        )
    } else {
        match res.function_error {
            Some(err) => Some(
                name + " reported FunctionError="@ + err@ + "; log:\n"@ + res.log_tail@,
            ),
            None => if http_fronted {
                http_complaint(name, res)
            } else {
                None
            },
        }
    }
}

/// Accepts an invocation exactly where its status is 200, it carries no function
/// error and, behind an HTTP front, its reply is a success.
pub fn check_ok(name: &str, http_fronted: bool, res: &InvokeResult) -> (r: Result<(), String>)
    ensures
        match r {
            Ok(_) => invoke_complaint(name@, http_fronted, *res) is None,
            Err(m) => invoke_complaint(name@, http_fronted, *res) == Some(m@),
        },
{
    if res.status_code != 200 {
        let mut out: String = name.to_owned();
        out.append(" returned status ");
        out.append(decimal_int_string(res.status_code as i64).as_str());
        out.append(" (expected 200); log:\n");
        out.append(res.log_tail.as_str());
        return Err(out);
    }
    if let Some(err) = &res.function_error {
        let mut out: String = name.to_owned();
        out.append(" reported FunctionError=");
        out.append(err.as_str());
        out.append("; log:\n");
        out.append(res.log_tail.as_str());
        return Err(out);
    }
    if http_fronted {
        check_http_envelope_ok(name, res)
    } else {
        Ok(())
    }
}

/// Accepts an invocation of a cell's function on the same terms, the HTTP reply
/// being judged for the scenarios that have one.
pub fn check_platform_ok(cell: &Cell, res: &InvokeResult) -> (r: Result<(), String>)
    ensures
        match r {
            Ok(_) => invoke_complaint(cell.full_name(), cell.scenario.http_fronted(), *res) is None,
            Err(m) => invoke_complaint(cell.full_name(), cell.scenario.http_fronted(), *res) == Some(
                m@,
            ),
        },
{
    check_ok(cell.function_name().as_str(), cell.scenario.is_http_fronted(), res)
}

} // verus!

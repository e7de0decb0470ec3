//! The pure checks behind the black-box test assertions: comparing a
//! response's status, headers and body against what a test expects, and
//! building the assertion-failure message. Sending the requests is I/O and
//! happens outside this crate.

use vstd::prelude::*;

use crate::decimal::{dec_digits, lemma_parse_dec_rep, parsed_int};
use crate::strutil::str_eq;

verus! {

/// The decimal digits of `n`, as text.
pub open spec fn dec_str(n: nat) -> Seq<char> {
    dec_digits(n).map_values(|b: u8| b as char)
}

/// Relies on String::from_utf8_lossy: for bytes below 128 each byte becomes
/// the character with the same code.
#[verifier::external_body]
fn ascii_to_string(bytes: &Vec<u8>) -> (r: String)
    requires
        forall|i: int| 0 <= i < bytes@.len() ==> bytes@[i] < 128,
    ensures
        r@ == bytes@.map_values(|b: u8| b as char),
{
    String::from_utf8_lossy(bytes).into_owned()
}

/// The decimal text of a status code.
pub fn u16_string(n: u16) -> (r: String)
    ensures
        r@ == dec_str(n as nat),
{
    let bytes = crate::decimal::encode_i64(n as i64);
    proof {
        lemma_parse_dec_rep(n as int);
        assert(parsed_int(bytes@) is Some);
        assert(forall|i: int| 0 <= i < bytes@.len() ==> bytes@[i] < 128);
    }
    ascii_to_string(&bytes)
}

/// The message of a failed comparison between two rendered values, with an
/// optional trailing explanation.
pub open spec fn failure_msg(
    op: Seq<char>,
    left: Seq<char>,
    right: Seq<char>,
    args: Option<Seq<char>>,
) -> Seq<char> {
    let head = "assertion failed: `(left "@ + op + " right)`\n  left: `"@ + left + "`,\n right: `"@
        + right + "`"@;
    match args {
        Some(a) => head + ": "@ + a,
        None => head,
    }
}

/// Builds the message of a failed comparison between two rendered values.
pub fn assert_failure_msg(op: &str, left: &str, right: &str, args: Option<&str>) -> (r: String)
    ensures
        r@ == failure_msg(
            op@,
            left@,
            right@,
            match args {
                Some(a) => Some(a@),
                None => None,
            },
        ),
{
    let head = String::from_str("assertion failed: `(left ").concat(op).concat(
        " right)`\n  left: `",
    ).concat(left).concat("`,\n right: `").concat(right).concat("`");
    match args {
        Some(a) => head.concat(": ").concat(a),
        None => head,
    }
}

/// Checks a response's status code against the expected one; a mismatch
/// yields the full assertion-failure message.
pub fn check_status(status: u16, expected: u16) -> (r: Result<(), String>)
    ensures
        status == expected ==> r is Ok,
        status != expected ==> (r matches Err(e) && e@ == failure_msg(
            "=="@,
            dec_str(status as nat),
            dec_str(expected as nat),
            Some("status code assertion failed"@),
        )),
{
    if status == expected {
        Ok(())
    } else {
        let left = u16_string(status);
        let right = u16_string(expected);
        Err(
            assert_failure_msg(
                "==",
                left.as_str(),
                right.as_str(),
                Some("status code assertion failed"),
            ),
        )
    }
}

/// Why a response failed its check.
#[derive(Debug, PartialEq, Eq)]
pub enum ResponseCheckError {
    /// The status code is not the expected one.
    UnexpectedStatus,
    /// An expected header is missing altogether.
    MissingHeader(String),
    /// An expected header is present with another value.
    HeaderMismatch(String),
    /// The body is not the expected one.
    BodyMismatch,
}

/// The value of the first header named `k`, if any.
pub open spec fn header_lookup(headers: Seq<(String, String)>, k: Seq<char>) -> Option<Seq<char>>
    decreases headers.len(),
{
    if headers.len() == 0 {
        None
    } else if headers[0].0@ == k {
        Some(headers[0].1@)
    } else {
        header_lookup(headers.skip(1), k)
    }
}

/// The outcome of checking each expected header in order against the
/// response's headers.
pub open spec fn headers_check(
    expected: Seq<(String, String)>,
    headers: Seq<(String, String)>,
) -> Result<(), ResponseCheckError>
    decreases expected.len(),
{
    if expected.len() == 0 {
        Ok(())
    } else {
        match header_lookup(headers, expected[0].0@) {
            None => Err(ResponseCheckError::MissingHeader(expected[0].0)),
            Some(v) => if v == expected[0].1@ {
                headers_check(expected.skip(1), headers)
            } else {
                Err(ResponseCheckError::HeaderMismatch(expected[0].0))
            },
        }
    }
}

fn lookup_header(headers: &Vec<(String, String)>, k: &str) -> (r: Option<String>)
    ensures
        match r {
            Some(v) => header_lookup(headers@, k@) == Some(v@),
            None => header_lookup(headers@, k@) is None,
        },
{
    let ghost hs = headers@;
    let mut i: usize = 0;
    proof {
        assert(hs.skip(0) =~= hs);
    }
    while i < headers.len()
        invariant
            i <= headers@.len(),
            hs == headers@,
            header_lookup(hs, k@) == header_lookup(hs.skip(i as int), k@),
        decreases headers@.len() - i,
    {
        proof {
            assert(hs.skip(i as int)[0] == hs[i as int]);
        }
        if str_eq(headers[i].0.as_str(), k) {
            proof {
                assert(header_lookup(hs.skip(i as int), k@) == Some(hs[i as int].1@));
            }
            return Some(headers[i].1.clone());
        }
        proof {
            assert(hs.skip(i as int).skip(1) =~= hs.skip(i + 1));
        }
        i = i + 1;
    }
    proof {
        assert(hs.skip(hs.len() as int) =~= Seq::<(String, String)>::empty());
    }
    None
}

/// Checks a response against what a test expects: the status code, then
/// each expected header in order, then — when one is expected — the body.
pub fn check_http_response(
    status: u16,
    expected_status: u16,
    headers: &Vec<(String, String)>,
    expected_headers: &Vec<(String, String)>,
    body: &str,
    expected_body: Option<&str>,
) -> (r: Result<(), ResponseCheckError>)
    ensures
        status != expected_status ==> r == Err::<(), ResponseCheckError>(
            ResponseCheckError::UnexpectedStatus,
        ),
        status == expected_status ==> match headers_check(expected_headers@, headers@) {
            Err(e) => r == Err::<(), ResponseCheckError>(e),
            Ok(_) => match expected_body {
                Some(b) => if b@ == body@ {
                    r is Ok
                } else {
                    r == Err::<(), ResponseCheckError>(ResponseCheckError::BodyMismatch)
                },
                None => r is Ok,
            },
        },
{
    if status != expected_status {
        return Err(ResponseCheckError::UnexpectedStatus);
    }
    let ghost ex = expected_headers@;
    let mut i: usize = 0;
    proof {
        assert(ex.skip(0) =~= ex);
    }
    while i < expected_headers.len()
        invariant
            status == expected_status,
            i <= expected_headers@.len(),
            ex == expected_headers@,
            headers_check(ex, headers@) == headers_check(ex.skip(i as int), headers@),
        decreases expected_headers@.len() - i,
    {
        proof {
            assert(ex.skip(i as int)[0] == ex[i as int]);
        }
        match lookup_header(headers, expected_headers[i].0.as_str()) {
            None => {
                return Err(ResponseCheckError::MissingHeader(expected_headers[i].0.clone()));
            },
            Some(v) => {
                if !str_eq(v.as_str(), expected_headers[i].1.as_str()) {
                    return Err(ResponseCheckError::HeaderMismatch(expected_headers[i].0.clone()));
                }
            },
        }
        proof {
            assert(ex.skip(i as int).skip(1) =~= ex.skip(i + 1));
        }
        i = i + 1;
    }
    proof {
        assert(ex.skip(ex.len() as int) =~= Seq::<(String, String)>::empty());
    }
    match expected_body {
        Some(b) => {
            if str_eq(b, body) {
                Ok(())
            } else {
                Err(ResponseCheckError::BodyMismatch)
            }
        },
        None => Ok(()),
    }
}

} // verus!

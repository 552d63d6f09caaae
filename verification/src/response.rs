//! Status lines and header blocks, as text.

use vstd::prelude::*;
use vstd::string::StringExecFns;

verus! {

/// How long a client may keep a file, in seconds.
pub const CACHE_AGE: u64 = 3600;

/// The statuses that a response can carry.
#[derive(Clone, Copy, Debug, PartialEq, Eq, Structural)]
pub enum ResponseStatus {
    /// `200 OK`: a file follows.
    Success,
    /// `400 Bad Request`: the request line has no served method or no target.
    BadRequest,
    /// `403 Forbidden`: the path lies outside the document root.
    Forbidden,
    /// `404 Not Found`: the path does not exist.
    NotFound,
}

impl ResponseStatus {
    /// The status code.
    pub open spec fn code_of(self) -> int {
        match self {
            ResponseStatus::Success => 200,
            ResponseStatus::BadRequest => 400,
            ResponseStatus::Forbidden => 403,
            ResponseStatus::NotFound => 404,
        }
    }

    /// The reason phrase that goes with the code.
    pub open spec fn reason_of(self) -> Seq<char> {
        match self {
            ResponseStatus::Success => "OK"@,
            ResponseStatus::BadRequest => "Bad Request"@,
            ResponseStatus::Forbidden => "Forbidden"@,
            ResponseStatus::NotFound => "Not Found"@,
        }
    }

    /// The status code.
    pub fn code(self) -> (code: i32)
        ensures
            code == self.code_of(),
    {
        match self {
            ResponseStatus::Success => 200,
            ResponseStatus::BadRequest => 400,
            ResponseStatus::Forbidden => 403,
            ResponseStatus::NotFound => 404,
        }
    }

    /// The reason phrase that goes with the code.
    pub fn reason(self) -> (reason: &'static str)
        ensures
            reason@ == self.reason_of(),
    {
        match self {
            ResponseStatus::Success => "OK",
            ResponseStatus::BadRequest => "Bad Request",
            ResponseStatus::Forbidden => "Forbidden",
            ResponseStatus::NotFound => "Not Found",
        }
    }
}

/// The character for a decimal digit.
pub open spec fn decimal_digit(d: nat) -> char
    recommends
        d < 10,
{
    if d == 0 {
        '0'
    } else if d == 1 {
        '1'
    } else if d == 2 {
        '2'
    } else if d == 3 {
        '3'
    } else if d == 4 {
        '4'
    } else if d == 5 {
        '5'
    } else if d == 6 {
        '6'
    } else if d == 7 {
        '7'
    } else if d == 8 {
        '8'
    } else {
        '9'
    }
}

/// The decimal numeral of `n`, without leading zeros.
pub open spec fn decimal(n: nat) -> Seq<char>
    decreases n,
{
    if n < 10 {
        seq![decimal_digit(n)]
    } else {
        decimal(n / 10).push(decimal_digit(n % 10))
    }
}

/// The decimal numeral of `n`, with `-` in front of a negative number.
pub open spec fn signed_decimal(n: int) -> Seq<char> {
    if n < 0 {
        seq!['-'] + decimal((-n) as nat)
    } else {
        decimal(n as nat)
    }
}

/// The first line of a response.
pub open spec fn status_line(code: int, reason: Seq<char>) -> Seq<char> {
    "HTTP/1.1 "@ + signed_decimal(code) + " "@ + reason + "\r\n"@
}

/// A whole response that carries a status and no body.
pub open spec fn status_response(code: int, message: Seq<char>) -> Seq<char> {
    status_line(code, message) + "Connection: close\r\n"@ + "\r\n"@
}

/// The status line and the headers that go before the chunked body of a file.
pub open spec fn file_head(content_type: Seq<char>) -> Seq<char> {
    status_line(ResponseStatus::Success.code_of(), ResponseStatus::Success.reason_of())
        + "Cache-Control: max-age="@ + decimal(CACHE_AGE as nat) + "\r\n"@
        + "Connection: close\r\n"@ + "Content-Type: "@ + content_type + "\r\n"@
        + "Transfer-Encoding: chunked\r\n"@ + "\r\n"@
}

fn digit_text(d: u64) -> (text: &'static str)
    requires
        d < 10,
    ensures
        text@ == seq![decimal_digit(d as nat)],
{
    proof {
        reveal_strlit("0");
        reveal_strlit("1");
        reveal_strlit("2");
        reveal_strlit("3");
        reveal_strlit("4");
        reveal_strlit("5");
        reveal_strlit("6");
        reveal_strlit("7");
        reveal_strlit("8");
        reveal_strlit("9");
    }
    let text = if d == 0 {
        "0"
    } else if d == 1 {
        "1"
    } else if d == 2 {
        "2"
    } else if d == 3 {
        "3"
    } else if d == 4 {
        "4"
    } else if d == 5 {
        "5"
    } else if d == 6 {
        "6"
    } else if d == 7 {
        "7"
    } else if d == 8 {
        "8"
    } else {
        "9"
    };
    text
}

/// Writes `n` in decimal.
pub fn format_decimal(n: u64) -> (text: String)
    ensures
        text@ == decimal(n as nat),
    decreases n,
{
    if n < 10 {
        String::from_str(digit_text(n))
    } else {
        let mut text = format_decimal(n / 10);
        text.append(digit_text(n % 10));
        text
    }
}

/// Writes `n` in decimal, with its sign if it is negative.
pub fn format_signed(n: i32) -> (text: String)
    ensures
        text@ == signed_decimal(n as int),
{
    let wide: i64 = n as i64;
    if wide < 0 {
        proof {
            reveal_strlit("-");
        }
        let mut text = String::from_str("-");
        let digits = format_decimal((-wide) as u64);
        text.append(digits.as_str());
        text
    } else {
        format_decimal(wide as u64)
    }
}

/// Writes the first line of a response.
pub fn format_status_line(code: i32, reason: &str) -> (text: String)
    ensures
        text@ == status_line(code as int, reason@),
{
    let mut text = String::from_str("HTTP/1.1 ");
    let digits = format_signed(code);
    text.append(digits.as_str());
    text.append(" ");
    text.append(reason);
    text.append("\r\n");
    text
}

/// Writes the response for a request that is turned down: the status line, the
/// header that announces the end of the connection, and no body.
pub fn serve_status(code: i32, message: &str) -> (text: String)
    ensures
        text@ == status_response(code as int, message@),
{
    let mut text = format_status_line(code, message);
    text.append("Connection: close\r\n");
    text.append("\r\n");
    text
}

/// Writes what goes before the body of a file: the `200` status line and the
/// headers, up to and including the empty line.
pub fn serve_file_head(content_type: &str) -> (text: String)
    ensures
        text@ == file_head(content_type@),
{
    let status = ResponseStatus::Success;
    let mut text = format_status_line(status.code(), status.reason());
    text.append("Cache-Control: max-age=");
    let age = format_decimal(CACHE_AGE);
    text.append(age.as_str());
    text.append("\r\n");
    text.append("Connection: close\r\n");
    text.append("Content-Type: ");
    text.append(content_type);
    text.append("\r\n");
    text.append("Transfer-Encoding: chunked\r\n");
    text.append("\r\n");
    text
}

} // verus!

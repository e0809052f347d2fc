//! The wire-facing decisions of the little web and echo servers: routing a
//! request line, rendering the response head, and the echo loop's choices.
//! Reading and writing sockets stays outside this crate.

use vstd::prelude::*;
use vstd::string::StringSliceAdditionalSpecFns;

verus! {

/// Whether two string slices hold the same characters.
pub fn str_eq(a: &str, b: &str) -> (r: bool)
    ensures
        r == (a@ == b@),
{
    let n = a.unicode_len();
    let m = b.unicode_len();
    if n != m {
        return false;
    }
    let mut k: usize = 0;
    while k < n
        invariant
            k <= n,
            n == a@.len(),
            n == b@.len(),
            forall|j: int| 0 <= j < k ==> a@[j] == b@[j],
        decreases n - k,
    {
        if a.get_char(k) != b.get_char(k) {
            return false;
        }
        k = k + 1;
    }
    proof {
        assert(a@ =~= b@);
    }
    true
}

/// The character for one decimal digit.
pub open spec fn digit_char(d: int) -> char {
    if d == 0 {
        '0'
    } else if d == 1 {
        '1'
    } else if d == 2 {
        '2'
    } else if d == 3 {
        '3'
    } else if d == 4 {
        '4'
    } else if d == 5 {
        '5'
    } else if d == 6 {
        '6'
    } else if d == 7 {
        '7'
    } else if d == 8 {
        '8'
    } else {
        '9'
    }
}

/// The decimal rendering of `n`, most significant digit first, without
/// leading zeros (a single `0` for zero).
pub open spec fn dec_digits(n: nat) -> Seq<char>
    decreases n,
{
    if n < 10 {
        seq![digit_char(n as int)]
    } else {
        dec_digits(n / 10).push(digit_char((n % 10) as int))
    }
}

/// The one-character string for a decimal digit.
fn digit_str(d: u64) -> (r: &'static str)
    requires
        d < 10,
    ensures
        r@ == seq![digit_char(d as int)],
{
    if d == 0 {
        proof {
            reveal_strlit("0");
            assert("0"@ =~= seq![digit_char(0)]);
        }
        "0"
    } else if d == 1 {
        proof {
            reveal_strlit("1");
            assert("1"@ =~= seq![digit_char(1)]);
        }
        "1"
    } else if d == 2 {
        proof {
            reveal_strlit("2");
            assert("2"@ =~= seq![digit_char(2)]);
        }
        "2"
    } else if d == 3 {
        proof {
            reveal_strlit("3");
            assert("3"@ =~= seq![digit_char(3)]);
        }
        "3"
    } else if d == 4 {
        proof {
            reveal_strlit("4");
            assert("4"@ =~= seq![digit_char(4)]);
        }
        "4"
    } else if d == 5 {
        proof {
            reveal_strlit("5");
            assert("5"@ =~= seq![digit_char(5)]);
        }
        "5"
    } else if d == 6 {
        proof {
            reveal_strlit("6");
            assert("6"@ =~= seq![digit_char(6)]);
        }
        "6"
    } else if d == 7 {
        proof {
            reveal_strlit("7");
            assert("7"@ =~= seq![digit_char(7)]);
        }
        "7"
    } else if d == 8 {
        proof {
            reveal_strlit("8");
            assert("8"@ =~= seq![digit_char(8)]);
        }
        "8"
    } else {
        proof {
            reveal_strlit("9");
            assert("9"@ =~= seq![digit_char(9)]);
        }
        "9"
    }
}

/// The decimal rendering of `n`.
pub fn u64_to_string(n: u64) -> (r: String)
    ensures
        r@ == dec_digits(n as nat),
    decreases n,
{
    if n < 10 {
        digit_str(n).to_owned()
    } else {
        let mut s = u64_to_string(n / 10);
        s.append(digit_str(n % 10));
        proof {
            assert(s@ =~= dec_digits(n as nat));
        }
        s
    }
}

/// What the web server decides to do with one request line.
pub struct RouteDecision {
    /// Status code of the response.
    pub status: u16,
    /// Reason phrase beside the status code.
    pub reason: &'static str,
    /// File whose contents make the body.
    pub file_path: &'static str,
    /// Seconds to wait before responding.
    pub delay_seconds: u64,
}

/// Route one request line: the root page is served at once, the sleepy
/// page after a pause, and everything else is not found.
pub fn route_request(request_line: &str) -> (r: RouteDecision)
    ensures
        request_line@ == "GET / HTTP/1.1"@ ==> r.status == 200 && r.reason@ == "OK"@
            && r.file_path@ == "./src/html/hello.html"@ && r.delay_seconds == 0,
        request_line@ == "GET /sleep HTTP/1.1"@ ==> r.status == 200 && r.reason@ == "OK"@
            && r.file_path@ == "./src/html/hello.html"@ && r.delay_seconds == 5,
        request_line@ != "GET / HTTP/1.1"@ && request_line@ != "GET /sleep HTTP/1.1"@
            ==> r.status == 404 && r.reason@ == "NOT FOUND"@ && r.file_path@
            == "./src/html/404.html"@ && r.delay_seconds == 0,
{
    proof {
        reveal_strlit("GET / HTTP/1.1");
        reveal_strlit("GET /sleep HTTP/1.1");
        assert("GET / HTTP/1.1"@.len() == 14);
        assert("GET /sleep HTTP/1.1"@.len() == 19);
    }
    if str_eq(request_line, "GET / HTTP/1.1") {
        RouteDecision {
            status: 200,
            reason: "OK",
            file_path: "./src/html/hello.html",
            delay_seconds: 0,
        }
    } else if str_eq(request_line, "GET /sleep HTTP/1.1") {
        RouteDecision {
            status: 200,
            reason: "OK",
            file_path: "./src/html/hello.html",
            delay_seconds: 5,
        }
    } else {
        RouteDecision {
            status: 404,
            reason: "NOT FOUND",
            file_path: "./src/html/404.html",
            delay_seconds: 0,
        }
    }
}

/// The full response for a status line and a body: the protocol, the code
/// and reason, the body's length in bytes, a blank line, and the body.
pub fn http_response(code: u16, reason: &str, contents: &str) -> (r: String)
    ensures
        r@ == "HTTP/1.1 "@ + dec_digits(code as nat) + " "@ + reason@ + "\r\nContent-Length: "@
            + dec_digits((contents.spec_bytes().len() as usize) as nat) + "\r\n\r\n"@ + contents@,
{
    let mut r = "HTTP/1.1 ".to_owned();
    let code_text = u64_to_string(code as u64);
    r.append(code_text.as_str());
    r.append(" ");
    r.append(reason);
    r.append("\r\nContent-Length: ");
    let length = contents.len();
    let length_text = u64_to_string(length as u64);
    r.append(length_text.as_str());
    r.append("\r\n\r\n");
    r.append(contents);
    proof {
        assert(r@ =~= "HTTP/1.1 "@ + dec_digits(code as nat) + " "@ + reason@
            + "\r\nContent-Length: "@ + dec_digits((contents.spec_bytes().len() as usize) as nat) + "\r\n\r\n"@
            + contents@);
    }
    r
}

/// What the echo loop does after one read from its peer.
#[derive(Debug, Clone, Copy, PartialEq, Eq, Structural)]
pub enum EchoAction {
    /// Nothing arrived: pause, then read again.
    Wait,
    /// This many bytes arrived: write them back, then read again.
    Echo(usize),
    /// The read failed: shut the connection down.
    Terminate,
}

/// The echo loop's decision for one read: errors end the connection, an
/// empty read waits, and data is echoed back.
pub fn echo_decide(read_ok: bool, size: usize) -> (a: EchoAction)
    ensures
        !read_ok ==> a == EchoAction::Terminate,
        read_ok && size == 0 ==> a == EchoAction::Wait,
        read_ok && size > 0 ==> a == EchoAction::Echo(size),
{
    if !read_ok {
        EchoAction::Terminate
    } else if size == 0 {
        EchoAction::Wait
    } else {
        EchoAction::Echo(size)
    }
}

} // verus!

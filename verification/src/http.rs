use vstd::prelude::*;

use crate::text::{decimal, decimal_text, string_from_chars};

verus! {

// What the file server computes: where a request's head ends, and the head
// of its answer.

/// `\r\n\r\n`, the end of a request's head.
pub open spec fn head_end() -> Seq<u8> {
    seq![13u8, 10u8, 13u8, 10u8]
}

/// Whether the bytes hold the end of a request's head.
pub open spec fn holds_head_end(b: Seq<u8>) -> bool {
    exists|i: int| 0 <= i && i + 4 <= b.len() && #[trigger] b.subrange(i, i + 4) == head_end()
}

/// The head of the answer that serves `body_len` bytes of HTML.
pub open spec fn response_head_text(body_len: nat) -> Seq<char> {
    "HTTP/1.1 200 OK\r\nContent-Type: text/html; charset=utf-8\r\nContent-Length: "@ + decimal(
        body_len,
    ) + "\r\nConnection: close\r\n\r\n"@
}

/// The prefix that marks a verbatim path on Windows.
pub open spec fn verbatim_prefix() -> Seq<char> {
    seq!['\\', '\\', '?', '\\']
}

/// A path as it is shown: without the verbatim prefix.
pub open spec fn shown_path(p: Seq<char>) -> Seq<char> {
    if p.len() >= 4 && p.take(4) == verbatim_prefix() {
        p.skip(4)
    } else {
        p
    }
}

/// Whether a chunk read from a request holds the end of its head.
pub fn ends_request_head(chunk: &[u8]) -> (r: bool)
    ensures
        r == holds_head_end(chunk@),
{
    let n = chunk.len();
    if n < 4 {
        proof {
            assert forall|i: int| 0 <= i && i + 4 <= chunk@.len() implies #[trigger] chunk@.subrange(
                i,
                i + 4,
            ) != head_end() by {}
        }
        return false;
    }
    let mut i: usize = 0;
    while i < n - 3
        invariant
            n == chunk@.len(),
            n >= 4,
            i <= n - 3,
            forall|j: int| 0 <= j < i ==> #[trigger] chunk@.subrange(j, j + 4) != head_end(),
        decreases n - i,
    {
        if chunk[i] == 13u8 && chunk[i + 1] == 10u8 && chunk[i + 2] == 13u8 && chunk[i + 3] == 10u8 {
            proof {
                assert(chunk@.subrange(i as int, i + 4) =~= head_end());
            }
            return true;
        }
        proof {
            let w = chunk@.subrange(i as int, i + 4);
            if w == head_end() {
                assert(w[0] == chunk@[i as int]);
                assert(w[1] == chunk@[i + 1]);
                assert(w[2] == chunk@[i + 2]);
                assert(w[3] == chunk@[i + 3]);
            }
        }
        i = i + 1;
    }
    false
}

/// The head of the answer that serves `body_len` bytes of HTML.
pub fn response_head(body_len: usize) -> (r: String)
    ensures
        r@ == response_head_text(body_len as nat),
{
    let len_text = decimal_text(body_len);
    let mut r = String::from_str("HTTP/1.1 200 OK\r\nContent-Type: text/html; charset=utf-8\r\nContent-Length: ");
    r.append(len_text.as_str());
    r.append("\r\nConnection: close\r\n\r\n");
    r
}

/// A path as it is shown: without the verbatim prefix that Windows puts in
/// front of a full path.
pub fn display_path(path: &str) -> (r: String)
    ensures
        r@ == shown_path(path@),
{
    broadcast use vstd::string::group_string_axioms;

    let mut chars: Vec<char> = Vec::new();
    for c in it: path.chars()
        invariant
            chars@ == it.seq().take(it.index() as int),
    {
        chars.push(c);
    }
    assert(chars@ == path@);
    if chars.len() >= 4 && chars[0] == '\\' && chars[1] == '\\' && chars[2] == '?' && chars[3] == '\\' {
        assert(chars@.take(4) =~= verbatim_prefix());
        let mut rest: Vec<char> = Vec::new();
        let mut i: usize = 4;
        while i < chars.len()
            invariant
                4 <= i <= chars@.len(),
                rest@ == chars@.subrange(4, i as int),
            decreases chars.len() - i,
        {
            rest.push(chars[i]);
            assert(rest@ =~= chars@.subrange(4, i + 1));
            i = i + 1;
        }
        assert(rest@ =~= chars@.skip(4));
        string_from_chars(&rest)
    } else {
        proof {
            if chars@.len() >= 4 && chars@.take(4) == verbatim_prefix() {
                assert(chars@.take(4)[0] == chars@[0]);
                assert(chars@.take(4)[1] == chars@[1]);
                assert(chars@.take(4)[2] == chars@[2]);
                assert(chars@.take(4)[3] == chars@[3]);
            }
        }
        string_from_chars(&chars)
    }
}

/// What a user is told when the server cannot bind its port: how to free
/// the port where another process holds it, else the error's own text.
pub open spec fn bind_error_text(port: u16, addr_in_use: bool, detail: Seq<char>) -> Seq<char> {
    if addr_in_use {
        "Port "@ + decimal(port as nat)
            + " is already in use. Stop the other process (often a previous `cargo run`) or use another port.\n  Windows: netstat -ano | findstr :"@
            + decimal(port as nat)
    } else {
        "Could not bind 127.0.0.1:"@ + decimal(port as nat) + ": "@ + detail
    }
}

/// What a user is told when the server cannot bind `port`; `detail` is the
/// text of the error.
pub fn format_bind_error(port: u16, addr_in_use: bool, detail: &str) -> (r: String)
    ensures
        r@ == bind_error_text(port, addr_in_use, detail@),
{
    let p = decimal_text(port as usize);
    if addr_in_use {
        let mut r = String::from_str("Port ");
        r.append(p.as_str());
        r.append(
            " is already in use. Stop the other process (often a previous `cargo run`) or use another port.\n  Windows: netstat -ano | findstr :",
        );
        r.append(p.as_str());
        r
    } else {
        let mut r = String::from_str("Could not bind 127.0.0.1:");
        r.append(p.as_str());
        r.append(": ");
        r.append(detail);
        r
    }
}

} // verus!

//! The health probe: one request, of whose answer only the status line counts.

use vstd::prelude::*;
use vstd::string::*;

use crate::text::{
    chars_of, first_index, quoted, quoted_text, split_first, trim, trimmed,
};

verus! {

/// The request that the probe sends.
pub open spec fn request_text(addr: Seq<char>, path: Seq<char>) -> Seq<char> {
    "GET "@ + path + " HTTP/1.1\r\nHost: "@ + addr + "\r\nConnection: close\r\n\r\n"@
}

/// The request that the probe sends.
pub fn probe_request(addr: &str, path: &str) -> (r: String)
    ensures
        r@ == request_text(addr@, path@),
{
    let mut out = String::from_str("GET ");
    out.append(path);
    out.append(" HTTP/1.1\r\nHost: ");
    out.append(addr);
    out.append("\r\nConnection: close\r\n\r\n");
    out
}

/// The seconds that the probe waits: at least one.
pub fn probe_timeout(secs: u64) -> (r: u64)
    ensures
        r == if secs == 0 {
            1
        } else {
            secs as int
        },
{
    if secs == 0 {
        1
    } else {
        secs
    }
}

/// The first line of an answer, without the white space around it.
pub open spec fn status_of(head: Seq<char>) -> Seq<char> {
    trimmed(head.take(first_index(head, '\n')))
}

/// The first line of an answer.
pub fn status_line(head: &str) -> (r: &str)
    ensures
        r@ == status_of(head@),
{
    match split_first(head, '\n') {
        Some((line, _)) => trim(line),
        None => {
            assert(head@.take(head@.len() as int) =~= head@);
            trim(head)
        },
    }
}

/// Whether `part` stands in `text` at position `i`.
pub open spec fn stands_at(text: Seq<char>, part: Seq<char>, i: int) -> bool {
    0 <= i && i + part.len() <= text.len() && text.subrange(i, i + part.len()) == part
}

/// Whether `part` stands somewhere in `text`.
pub open spec fn stands_in(text: Seq<char>, part: Seq<char>) -> bool {
    exists|i: int| #[trigger] stands_at(text, part, i)
}

/// Whether `part` stands in `text` at position `i`.
fn is_at(text: &Vec<char>, part: &Vec<char>, i: usize) -> (r: bool)
    requires
        i + part@.len() <= text@.len(),
    ensures
        r == stands_at(text@, part@, i as int),
{
    let n: usize = text.len();
    let mut k: usize = 0;
    while k < part.len()
        invariant
            n == text@.len(),
            k <= part@.len(),
            i + part@.len() <= n,
            forall|j: int| 0 <= j < k ==> text@[i + j] == part@[j],
        decreases part@.len() - k,
    {
        if text[i + k] != part[k] {
            assert(text@.subrange(i as int, i + part@.len())[k as int] != part@[k as int]);
            return false;
        }
        k = k + 1;
    }
    assert(text@.subrange(i as int, i + part@.len()) =~= part@);
    true
}

/// Whether `part` stands somewhere in `text`.
pub fn contains_text(text: &str, part: &str) -> (r: bool)
    ensures
        r == stands_in(text@, part@),
{
    let cs = chars_of(text);
    let ps = chars_of(part);
    if ps.len() > cs.len() {
        return false;
    }
    let last: usize = cs.len() - ps.len();
    let mut i: usize = 0;
    while i < last
        invariant
            cs@ == text@,
            ps@ == part@,
            last == text@.len() - part@.len(),
            i <= last,
            forall|j: int| 0 <= j < i ==> !#[trigger] stands_at(text@, part@, j),
        decreases last - i,
    {
        if is_at(&cs, &ps, i) {
            return true;
        }
        i = i + 1;
    }
    is_at(&cs, &ps, last)
}

/// What the probe says of the first line of an answer: what is shown where the
/// service is well, and why it is not.
pub open spec fn verdict_of(
    addr: Seq<char>,
    path: Seq<char>,
    status: Seq<char>,
) -> Result<Seq<char>, Seq<char>> {
    if stands_in(status, " 200 "@) {
        Ok("ok: "@ + status)
    } else if status.len() == 0 {
        Err("探测 "@ + addr + path + " 失败：没有收到任何 HTTP 响应"@)
    } else {
        Err("探测 "@ + addr + path + " 失败，状态行："@ + quoted_text(status))
    }
}

/// What the probe says of an answer, of which `head` is the beginning.
pub fn probe_verdict(addr: &str, path: &str, head: &str) -> (r: Result<String, String>)
    ensures
        match r {
            Ok(text) => verdict_of(addr@, path@, status_of(head@)) == Ok::<Seq<char>, Seq<char>>(
                text@,
            ),
            Err(text) => verdict_of(addr@, path@, status_of(head@)) == Err::<Seq<char>, Seq<char>>(
                text@,
            ),
        },
{
    let status = status_line(head);
    if contains_text(status, " 200 ") {
        let mut out = String::from_str("ok: ");
        out.append(status);
        return Ok(out);
    }
    let mut out = String::from_str("探测 ");
    out.append(addr);
    out.append(path);
    if status.is_empty() {
        out.append(" 失败：没有收到任何 HTTP 响应");
    } else {
        out.append(" 失败，状态行：");
        out.append(quoted(status).as_str());
    }
    Err(out)
}

} // verus!

//! What the service is asked, how it is probed, and how it is described.

use vstd::prelude::*;

use crate::api::docs::{ApiDoc, Document, Method, PathDoc, Route};
use crate::laws::texts::{core_of, lacks, lemma_one_core, lemma_trimmed_is_core};
use crate::probe::{
    contains_text, probe_request, probe_timeout, probe_verdict, stands_at, stands_in, status_line,
    status_of,
};
use crate::text::{first_index, lemma_first_index, quoted_text};

verus! {

// ---------------------------------------------------------------- the probe

/// Whether `part` stands in `text` from position `i` on.
pub open spec fn reads_at(text: Seq<char>, part: Seq<char>, i: int) -> bool {
    &&& 0 <= i && i + part.len() <= text.len()
    &&& forall|k: int| 0 <= k < part.len() ==> text[i + k] == #[trigger] part[k]
}

/// Whether `part` stands somewhere in `text`.
pub open spec fn reads_in(text: Seq<char>, part: Seq<char>) -> bool {
    exists|i: int| #[trigger] reads_at(text, part, i)
}

#[verifier::spinoff_prover]
proof fn lemma_reads_in(text: Seq<char>, part: Seq<char>)
    ensures
        reads_in(text, part) == stands_in(text, part),
{
    if stands_in(text, part) {
        let i = choose|i: int| #[trigger] stands_at(text, part, i);
        assert forall|k: int| 0 <= k < part.len() implies text[i + k] == #[trigger] part[k] by {
            assert(text.subrange(i, i + part.len())[k] == part[k]);
        }
        assert(reads_at(text, part, i));
    }
    if reads_in(text, part) {
        let i = choose|i: int| #[trigger] reads_at(text, part, i);
        assert(text.subrange(i, i + part.len()) =~= part);
        assert(stands_at(text, part, i));
    }
}

/// A text is found in another where its characters stand there, one by one.
#[verifier::spinoff_prover]
pub proof fn law_parts_are_found_right(text: &str, part: &str, r: bool)
    requires
        call_ensures(contains_text, (text, part), r),
    ensures
        r == reads_in(text@, part@),
{
    lemma_reads_in(text@, part@);
}

/// Whether `line` is what an answer holds before its first line ends.
pub open spec fn is_first_line(head: Seq<char>, line: Seq<char>) -> bool {
    &&& lacks(line, '\n')
    &&& line.len() <= head.len()
    &&& forall|i: int| 0 <= i < line.len() ==> head[i] == #[trigger] line[i]
    &&& line.len() < head.len() ==> head[line.len() as int] == '\n'
}

#[verifier::spinoff_prover]
proof fn lemma_first_line(head: Seq<char>, line: Seq<char>, status: Seq<char>)
    requires
        is_first_line(head, line),
        core_of(line, status),
    ensures
        status == status_of(head),
{
    lemma_first_index(head, '\n');
    let n = first_index(head, '\n');
    if n < line.len() {
        assert(head[n] == line[n]);
    }
    assert(head.take(n) =~= line);
    lemma_trimmed_is_core(line);
    lemma_one_core(line, status, status_of(head));
}

/// The status line is the first line of the answer, without the white space at its
/// ends.
#[verifier::spinoff_prover]
pub proof fn law_the_status_is_the_first_line(
    head: &str,
    line: Seq<char>,
    status: Seq<char>,
    r: &str,
)
    requires
        is_first_line(head@, line),
        core_of(line, status),
        call_ensures(status_line, (head,), r),
    ensures
        r@ == status,
{
    lemma_first_line(head@, line, status);
}

/// The service is well where its status is 200, and not otherwise; the verdict shows
/// the status, or that there was none.
#[verifier::spinoff_prover]
pub proof fn law_the_verdict_goes_by_the_status(
    addr: &str,
    path: &str,
    head: &str,
    line: Seq<char>,
    status: Seq<char>,
    r: Result<String, String>,
)
    requires
        is_first_line(head@, line),
        core_of(line, status),
        call_ensures(probe_verdict, (addr, path, head), r),
    ensures
        r is Ok <==> reads_in(status, " 200 "@),
        r matches Ok(text) ==> text@ == "ok: "@ + status,
        r matches Err(text) ==> text@ == "探测 "@ + addr@ + path@ + if status.len() == 0 {
            " 失败：没有收到任何 HTTP 响应"@
        } else {
            " 失败，状态行："@ + quoted_text(status)
        },
{
    lemma_first_line(head@, line, status);
    lemma_reads_in(status, " 200 "@);
    if let Err(text) = r {
        assert("探测 "@ + addr@ + path@ + (" 失败，状态行："@ + quoted_text(status)) =~= "探测 "@
            + addr@ + path@ + " 失败，状态行："@ + quoted_text(status));
    }
}

/// The probe asks the address for the path, and waits a second at least.
#[verifier::spinoff_prover]
pub proof fn law_the_probe_asks_for_the_path(
    addr: &str,
    path: &str,
    request: String,
    secs: u64,
    wait: u64,
)
    requires
        call_ensures(probe_request, (addr, path), request),
        call_ensures(probe_timeout, (secs,), wait),
    ensures
        request@ == "GET "@ + path@ + " HTTP/1.1\r\nHost: "@ + addr@
            + "\r\nConnection: close\r\n\r\n"@,
        wait >= 1,
        secs >= 1 ==> wait == secs,
        secs == 0 ==> wait == 1,
{
}

// ---------------------------------------------------------------- the routes

/// Whether a route is reached by this method under this path, and is shown with
/// this summary in this group.
pub open spec fn is_reached_by(
    route: Route,
    method: Method,
    path: Seq<char>,
    summary: Seq<char>,
    tag: Seq<char>,
) -> bool {
    &&& route == Route::Health ==> method == Method::Get && path == "/health"@ && summary
        == "健康检查，附带记录数"@ && tag == "元数据"@
    &&& route == Route::DayByQuery ==> method == Method::Get && path == "/api/v1/holiday"@
        && summary == "查询单个日期"@ && tag == "查询"@
    &&& route == Route::DayByPath ==> method == Method::Get && path == "/api/v1/holiday/{date}"@
        && summary == "查询单个日期（路径写法）"@ && tag == "查询"@
    &&& route == Route::YearByQuery ==> method == Method::Get && path == "/api/v1/holidays"@
        && summary == "列出某年全部记录"@ && tag == "查询"@
    &&& route == Route::Batch ==> method == Method::Post && path == "/api/v1/holidays/batch"@
        && summary == "批量查询"@ && tag == "查询"@
    &&& route == Route::YearByPath ==> method == Method::Get && path == "/api/v1/year/{year}"@
        && summary == "列出某年全部记录（路径写法）"@ && tag == "查询"@
    &&& route == Route::Years ==> method == Method::Get && path == "/api/v1/years"@ && summary
        == "列出数据库里有数据的年份"@ && tag == "元数据"@
}

/// Each route is reached by its own method and path.
#[verifier::spinoff_prover]
pub proof fn law_routes_are_reached_right(
    route: Route,
    method: Method,
    path: &str,
    summary: &str,
    tag: &str,
)
    requires
        call_ensures(Route::method, (route,), method),
        call_ensures(Route::path, (route,), path),
        call_ensures(Route::summary, (route,), summary),
        call_ensures(Route::tag, (route,), tag),
    ensures
        is_reached_by(route, method, path@, summary@, tag@),
{
}

/// Whether a route is described.
pub open spec fn is_described(paths: Seq<PathDoc>, route: Route) -> bool {
    exists|i: int|
        0 <= i < paths.len() && (#[trigger] paths[i]).route == route && is_reached_by(
            route,
            paths[i].method,
            paths[i].path@,
            paths[i].summary@,
            paths[i].tag@,
        )
}

/// The document describes every route once, as it is reached.
#[verifier::spinoff_prover]
pub proof fn law_the_document_describes_the_routes(doc: Document)
    requires
        call_ensures(ApiDoc::openapi, (), doc),
    ensures
        doc.title@ == "中国节假日查询服务"@,
        doc.tags@.len() == 2,
        doc.tags@[0].0@ == "查询"@ && doc.tags@[0].1@ == "按日期或年份查询节假日数据"@,
        doc.tags@[1].0@ == "元数据"@ && doc.tags@[1].1@ == "服务状态与数据覆盖范围"@,
        doc.paths@.len() == 7,
        forall|route: Route| #[trigger] is_described(doc.paths@, route),
        forall|i: int, j: int|
            0 <= i < j < doc.paths@.len() ==> (#[trigger] doc.paths@[i]).route != (
            #[trigger] doc.paths@[j]).route,
{
    let paths = doc.paths@;
    assert forall|route: Route| #[trigger] is_described(paths, route) by {
        let i: int = match route {
            Route::Health => 0,
            Route::DayByQuery => 1,
            Route::DayByPath => 2,
            Route::YearByQuery => 3,
            Route::Batch => 4,
            Route::YearByPath => 5,
            Route::Years => 6,
        };
        assert(crate::api::docs::describes(paths[i], route));
    }
}

} // verus!

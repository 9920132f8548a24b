//! The description of the REST interface.

use vstd::prelude::*;

verus! {

/// The answer to `GET /health`.
#[derive(Debug)]
pub struct HealthResponse {
    /// Always `ok`.
    pub status: &'static str,
    /// The number of records; a day may have several.
    pub records: usize,
    /// The number of different dates.
    pub dates: usize,
    /// The years with data, ascending.
    pub years: Vec<i32>,
}

/// The answer to `GET /api/v1/years`.
#[derive(Debug)]
pub struct YearsResponse {
    /// The number of years.
    pub count: usize,
    /// The years with data, ascending.
    pub years: Vec<i32>,
}

// ---------------------------------------------------------------- routes

/// The method of a request.
#[derive(Debug, Clone, Copy, PartialEq, Eq, Structural)]
pub enum Method {
    Get,
    Post,
}

/// A request that is answered.
#[derive(Debug, Clone, Copy, PartialEq, Eq, Structural)]
pub enum Route {
    /// Whether the service runs.
    Health,
    /// A day, given as a parameter.
    DayByQuery,
    /// A day, given in the path.
    DayByPath,
    /// A year, given as a parameter.
    YearByQuery,
    /// Several days.
    Batch,
    /// A year, given in the path.
    YearByPath,
    /// The years with data.
    Years,
}

/// The path of a route.
pub open spec fn route_path(route: Route) -> Seq<char> {
    match route {
        Route::Health => "/health"@,
        Route::DayByQuery => "/api/v1/holiday"@,
        Route::DayByPath => "/api/v1/holiday/{date}"@,
        Route::YearByQuery => "/api/v1/holidays"@,
        Route::Batch => "/api/v1/holidays/batch"@,
        Route::YearByPath => "/api/v1/year/{year}"@,
        Route::Years => "/api/v1/years"@,
    }
}

/// What a route is for.
pub open spec fn route_summary(route: Route) -> Seq<char> {
    match route {
        Route::Health => "健康检查，附带记录数"@,
        Route::DayByQuery => "查询单个日期"@,
        Route::DayByPath => "查询单个日期（路径写法）"@,
        Route::YearByQuery => "列出某年全部记录"@,
        Route::Batch => "批量查询"@,
        Route::YearByPath => "列出某年全部记录（路径写法）"@,
        Route::Years => "列出数据库里有数据的年份"@,
    }
}

/// The group that a route is shown in.
pub open spec fn route_tag(route: Route) -> Seq<char> {
    match route {
        Route::Health => "元数据"@,
        Route::Years => "元数据"@,
        _ => "查询"@,
    }
}

/// All routes.
pub open spec fn all_routes() -> Seq<Route> {
    seq![
        Route::Health,
        Route::DayByQuery,
        Route::DayByPath,
        Route::YearByQuery,
        Route::Batch,
        Route::YearByPath,
        Route::Years,
    ]
}

impl Route {
    pub const ALL: [Route; 7] = [
        Route::Health,
        Route::DayByQuery,
        Route::DayByPath,
        Route::YearByQuery,
        Route::Batch,
        Route::YearByPath,
        Route::Years,
    ];

    /// Only a batch is posted.
    pub fn method(self) -> (r: Method)
        ensures
            r == (if self == Route::Batch {
                Method::Post
            } else {
                Method::Get
            }),
    {
        match self {
            Route::Batch => Method::Post,
            _ => Method::Get,
        }
    }

    /// The path of the route.
    pub fn path(self) -> (r: &'static str)
        ensures
            r@ == route_path(self),
    {
        match self {
            Route::Health => "/health",
            Route::DayByQuery => "/api/v1/holiday",
            Route::DayByPath => "/api/v1/holiday/{date}",
            Route::YearByQuery => "/api/v1/holidays",
            Route::Batch => "/api/v1/holidays/batch",
            Route::YearByPath => "/api/v1/year/{year}",
            Route::Years => "/api/v1/years",
        }
    }

    /// What the route is for.
    pub fn summary(self) -> (r: &'static str)
        ensures
            r@ == route_summary(self),
    {
        match self {
            Route::Health => "健康检查，附带记录数",
            Route::DayByQuery => "查询单个日期",
            Route::DayByPath => "查询单个日期（路径写法）",
            Route::YearByQuery => "列出某年全部记录",
            Route::Batch => "批量查询",
            Route::YearByPath => "列出某年全部记录（路径写法）",
            Route::Years => "列出数据库里有数据的年份",
        }
    }

    /// The group that the route is shown in.
    pub fn tag(self) -> (r: &'static str)
        ensures
            r@ == route_tag(self),
    {
        match self {
            Route::Health => "元数据",
            Route::Years => "元数据",
            _ => "查询",
        }
    }
}

/// No two routes have the same path, so that a path leads to one of them.
pub proof fn law_routes_have_their_own_paths(a: Route, b: Route)
    ensures
        route_path(a) == route_path(b) ==> a == b,
{
    reveal_strlit("/health");
    reveal_strlit("/api/v1/holiday");
    reveal_strlit("/api/v1/holiday/{date}");
    reveal_strlit("/api/v1/holidays");
    reveal_strlit("/api/v1/holidays/batch");
    reveal_strlit("/api/v1/year/{year}");
    reveal_strlit("/api/v1/years");
    assert("/health"@.len() == 7 && "/api/v1/holiday"@.len() == 15);
    assert("/api/v1/holiday/{date}"@.len() == 22 && "/api/v1/holidays"@.len() == 16);
    assert("/api/v1/holidays/batch"@.len() == 22 && "/api/v1/year/{year}"@.len() == 19);
    assert("/api/v1/years"@.len() == 13);
    assert("/api/v1/holiday/{date}"@[15] != "/api/v1/holidays/batch"@[15]);
}

// ---------------------------------------------------------------- the document

/// The title of the document.
pub const TITLE: &'static str = "中国节假日查询服务";

/// What the document says of the service.
pub const DESCRIPTION: &'static str = "按日期查询中国法定节假日、调休上班与调休补假信息。\n\n判读要点：\n- day_type 是四态归类：holiday / makeup_workday / weekend / workday\n- is_rest_day 是「实际是否不用上班」的最终答案\n- data_available 为 false 表示该年份没有数据，不代表这一天不是节假日\n\n错误响应统一为带 error / code / message 的包装对象；未匹配的路径返回 404 not_found。\n数据来源为国务院放假通知，覆盖年份见 GET /api/v1/years。";

/// A request, as the document describes it.
#[derive(Debug)]
pub struct PathDoc {
    pub route: Route,
    pub method: Method,
    pub path: &'static str,
    pub summary: &'static str,
    pub tag: &'static str,
}

/// The document that describes the interface.
#[derive(Debug)]
pub struct Document {
    pub title: &'static str,
    pub description: &'static str,
    /// The groups, each with what it is for.
    pub tags: Vec<(&'static str, &'static str)>,
    /// The requests, in the order of the routes.
    pub paths: Vec<PathDoc>,
}

/// Whether a description is that of a route.
pub open spec fn describes(doc: PathDoc, route: Route) -> bool {
    &&& doc.route == route
    &&& doc.method == (if route == Route::Batch {
        Method::Post
    } else {
        Method::Get
    })
    &&& doc.path@ == route_path(route)
    &&& doc.summary@ == route_summary(route)
    &&& doc.tag@ == route_tag(route)
}

/// Whether the descriptions are those of all routes, in order.
pub open spec fn describes_all(paths: Seq<PathDoc>) -> bool {
    &&& paths.len() == all_routes().len()
    &&& forall|i: int| 0 <= i < paths.len() ==> describes(#[trigger] paths[i], all_routes()[i])
}

/// The description of the service.
pub struct ApiDoc;

impl ApiDoc {
    /// The document, with every route in it.
    pub fn openapi() -> (r: Document)
        ensures
            r.title@ == TITLE@,
            r.description@ == DESCRIPTION@,
            r.tags@.len() == 2,
            r.tags@[0].0@ == "查询"@ && r.tags@[0].1@ == "按日期或年份查询节假日数据"@,
            r.tags@[1].0@ == "元数据"@ && r.tags@[1].1@ == "服务状态与数据覆盖范围"@,
            describes_all(r.paths@),
    {
        let mut tags: Vec<(&'static str, &'static str)> = Vec::new();
        tags.push(("查询", "按日期或年份查询节假日数据"));
        tags.push(("元数据", "服务状态与数据覆盖范围"));
        let mut paths: Vec<PathDoc> = Vec::new();
        let routes = Route::ALL;
        let mut i: usize = 0;
        while i < 7
            invariant
                i <= 7,
                routes@ == all_routes(),
                paths@.len() == i,
                forall|k: int| 0 <= k < i ==> describes(#[trigger] paths@[k], all_routes()[k]),
            decreases 7 - i,
        {
            let route = routes[i];
            paths.push(
                PathDoc {
                    route,
                    method: route.method(),
                    path: route.path(),
                    summary: route.summary(),
                    tag: route.tag(),
                },
            );
            i = i + 1;
        }
        Document { title: TITLE, description: DESCRIPTION, tags, paths }
    }
}

/// Every route is described, and nothing else is.
pub proof fn law_every_route_is_described(paths: Seq<PathDoc>, route: Route)
    requires
        describes_all(paths),
    ensures
        exists|i: int| 0 <= i < paths.len() && describes(#[trigger] paths[i], route),
        paths.len() == 7,
        forall|i: int, j: int|
            0 <= i < j < paths.len() ==> (#[trigger] paths[i]).path@ != (#[trigger] paths[j]).path@,
{
    let at: int = match route {
        Route::Health => 0,
        Route::DayByQuery => 1,
        Route::DayByPath => 2,
        Route::YearByQuery => 3,
        Route::Batch => 4,
        Route::YearByPath => 5,
        Route::Years => 6,
    };
    assert(all_routes()[at] == route);
    assert(describes(paths[at], route));
    assert forall|i: int, j: int| 0 <= i < j < paths.len() implies (#[trigger] paths[i]).path@ != (
    #[trigger] paths[j]).path@ by {
        law_routes_have_their_own_paths(all_routes()[i], all_routes()[j]);
    }
}

} // verus!

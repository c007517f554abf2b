//! Search hits, and the search endpoint around the search engine.
use crate::json;
use crate::json::{Fields, Json, JsonModel};
use crate::order::{Placed, Ranked};
use crate::order;
use crate::projects::ProjectEntry;
use crate::response;
use crate::response::{OmnimindResponse, ResponseModel};
use crate::text;
use vstd::prelude::*;
use vstd::string::*;

verus! {

/// One hit of a search. Scores are binary64 numbers, given by their bits.
pub struct ProjectSearchResult {
    pub path: String,
    pub title: String,
    pub snippet: String,
    pub title_match: bool,
    pub score: u64,
    pub bm25_score: Option<u64>,
    pub vector_score: Option<u64>,
    pub graph_score: Option<u64>,
    pub rrf_score: Option<u64>,
    pub images: Vec<Json>,
    pub content: Option<String>,
    pub graph_related_to: Vec<String>,
}

/// The sign bit of a binary64 number.
pub const SIGN_BIT: u64 = 0x8000_0000_0000_0000;

/// The bits of the infinite binary64 number; with more below the sign they stand for no number.
pub const INFINITY_BITS: u64 = 0x7ff0_0000_0000_0000;

/// A number that orders binary64 numbers as their values: the bits without the sign, with it.
/// What is no number has none.
pub open spec fn score_rank(bits: u64) -> Option<int> {
    let size = if bits < SIGN_BIT {
        bits as int
    } else {
        bits - SIGN_BIT
    };
    if size > INFINITY_BITS {
        None
    } else if bits < SIGN_BIT {
        Some(size)
    } else {
        Some(-size)
    }
}

/// Tests whether the score with the bits is a number.
fn is_number(bits: u64) -> (r: bool)
    ensures
        r == score_rank(bits) is Some,
{
    if bits < SIGN_BIT {
        bits <= INFINITY_BITS
    } else {
        bits - SIGN_BIT <= INFINITY_BITS
    }
}

/// Tests whether the score with the bits `a` is greater than that with the bits `b`. What is no
/// number is neither greater nor less than any score.
fn scores_higher(a: u64, b: u64) -> (r: bool)
    ensures
        r == (match (score_rank(a), score_rank(b)) {
            (Some(a), Some(b)) => a > b,
            _ => false,
        }),
{
    if !is_number(a) || !is_number(b) {
        false
    } else if a < SIGN_BIT {
        if b < SIGN_BIT {
            a > b
        } else {
            a > 0 || b > SIGN_BIT
        }
    } else {
        b > a && b >= SIGN_BIT
    }
}

impl Placed for ProjectSearchResult {
    /// Hits of higher score go first.
    open spec fn rank(&self) -> Option<int> {
        score_rank(self.score)
    }

    /// Hits of one score go by their paths, and so does a hit whose score is no number beside
    /// any other.
    open spec fn tag(&self) -> Seq<char> {
        self.path@
    }
}

impl Ranked for ProjectSearchResult {
    fn goes_ahead_of(&self, other: &Self) -> (r: bool) {
        scores_higher(self.score, other.score) || (!scores_higher(other.score, self.score)
            && order::comes_before(self.path.as_str(), other.path.as_str()))
    }
}

/// How a search finds its hits.
#[derive(Clone, Copy, Debug, PartialEq, Eq, Structural)]
pub enum SearchMode {
    Bm25,
    Vector,
    Graph,
    Hybrid,
}

/// The name of a search mode.
pub open spec fn mode_name(mode: SearchMode) -> Seq<char> {
    match mode {
        SearchMode::Bm25 => "bm25"@,
        SearchMode::Vector => "vector"@,
        SearchMode::Graph => "graph"@,
        SearchMode::Hybrid => "hybrid"@,
    }
}

impl Default for SearchMode {
    /// The mode of a request that names none.
    fn default() -> (r: SearchMode)
        ensures
            r == SearchMode::Hybrid,
    {
        SearchMode::Hybrid
    }
}

impl SearchMode {
    /// Tells the name of the mode.
    pub fn name(self) -> (r: &'static str)
        ensures
            r@ == mode_name(self),
    {
        match self {
            SearchMode::Bm25 => "bm25",
            SearchMode::Vector => "vector",
            SearchMode::Graph => "graph",
            SearchMode::Hybrid => "hybrid",
        }
    }

    /// Reads the name of a mode; no other text is accepted.
    pub fn named(name: &str) -> (r: Option<SearchMode>)
        ensures
            match r {
                Some(mode) => name@ == mode_name(mode),
                None => forall|mode: SearchMode| name@ != #[trigger] mode_name(mode),
            },
    {
        if text::same_text(name, "bm25") {
            Some(SearchMode::Bm25)
        } else if text::same_text(name, "vector") {
            Some(SearchMode::Vector)
        } else if text::same_text(name, "graph") {
            Some(SearchMode::Graph)
        } else if text::same_text(name, "hybrid") {
            Some(SearchMode::Hybrid)
        } else {
            None
        }
    }
}

/// No two modes share a name.
pub proof fn mode_names_differ(a: SearchMode, b: SearchMode)
    requires
        mode_name(a) == mode_name(b),
    ensures
        a == b,
{
    reveal_strlit("bm25");
    reveal_strlit("vector");
    reveal_strlit("graph");
    reveal_strlit("hybrid");
    assert("bm25"@[0] == 'b' && "vector"@[0] == 'v' && "graph"@[0] == 'g' && "hybrid"@[0] == 'h');
}

/// What the search engine answers.
pub struct ProjectSearchResponse {
    pub mode: String,
    pub requested_mode: SearchMode,
    pub executed_mode: SearchMode,
    pub results: Vec<ProjectSearchResult>,
    pub token_hits: usize,
    pub vector_hits: usize,
    pub graph_hits: usize,
}

/// A text, or null.
pub open spec fn optional_text_model(t: Option<String>) -> JsonModel {
    match t {
        Some(t) => JsonModel::Text(t@),
        None => JsonModel::Null,
    }
}

/// A hit as JSON.
pub open spec fn result_model(hit: ProjectSearchResult) -> JsonModel {
    JsonModel::Object(
        json::no_fields().push(("path"@, JsonModel::Text(hit.path@))).push(
            ("title"@, JsonModel::Text(hit.title@)),
        ).push(("snippet"@, JsonModel::Text(hit.snippet@))).push(
            ("titleMatch"@, JsonModel::Bool(hit.title_match)),
        ).push(("score"@, JsonModel::Float(hit.score))).push(
            ("bm25Score"@, json::optional_float_model(hit.bm25_score)),
        ).push(("vectorScore"@, json::optional_float_model(hit.vector_score))).push(
            ("graphScore"@, json::optional_float_model(hit.graph_score)),
        ).push(("rrfScore"@, json::optional_float_model(hit.rrf_score))).push(
            ("images"@, JsonModel::Array(json::items_model(hit.images@))),
        ).push(("content"@, optional_text_model(hit.content))).push(
            ("graphRelatedTo"@, json::texts_model(text::views(hit.graph_related_to@))),
        ),
    )
}

/// Writes a hit as JSON.
fn result_json(hit: ProjectSearchResult) -> (r: Json)
    ensures
        r@ == result_model(hit),
{
    let content = match hit.content {
        Some(content) => Json::Text(content),
        None => Json::Null,
    };
    Fields::new().and("path", Json::Text(hit.path)).and("title", Json::Text(hit.title)).and(
        "snippet",
        Json::Text(hit.snippet),
    ).and("titleMatch", Json::Bool(hit.title_match)).and("score", Json::Float(hit.score)).and(
        "bm25Score",
        Json::optional_float(hit.bm25_score),
    ).and("vectorScore", Json::optional_float(hit.vector_score)).and(
        "graphScore",
        Json::optional_float(hit.graph_score),
    ).and("rrfScore", Json::optional_float(hit.rrf_score)).and(
        "images",
        json::array(hit.images),
    ).and("content", content).and(
        "graphRelatedTo",
        Json::texts(hit.graph_related_to.as_slice()),
    ).object()
}

/// The answer of the search engine as JSON.
pub open spec fn search_model(project_id: Seq<char>, search: ProjectSearchResponse) -> Seq<
    (Seq<char>, JsonModel),
> {
    json::no_fields().push(("ok"@, JsonModel::Bool(true))).push(
        ("projectId"@, JsonModel::Text(project_id)),
    ).push(("mode"@, JsonModel::Text(search.mode@))).push(
        ("requestedMode"@, JsonModel::Text(mode_name(search.requested_mode))),
    ).push(("executedMode"@, JsonModel::Text(mode_name(search.executed_mode)))).push(
        ("tokenHits"@, JsonModel::UInt(search.token_hits as nat)),
    ).push(("vectorHits"@, JsonModel::UInt(search.vector_hits as nat))).push(
        ("graphHits"@, JsonModel::UInt(search.graph_hits as nat)),
    ).push(
        (
            "results"@,
            JsonModel::Array(search.results@.map_values(|hit: ProjectSearchResult| result_model(hit))),
        ),
    )
}

/// Writes the answer of the search engine as JSON.
pub fn search_response_body(project_id: &str, search: ProjectSearchResponse) -> (r: Json)
    ensures
        r@ == JsonModel::Object(search_model(project_id@, search)),
{
    search_fields(project_id, search).object()
}

fn search_fields(project_id: &str, search: ProjectSearchResponse) -> (r: Fields)
    ensures
        r@ == search_model(project_id@, search),
{
    let ProjectSearchResponse {
        mode,
        requested_mode,
        executed_mode,
        results,
        token_hits,
        vector_hits,
        graph_hits,
    } = search;
    let ghost all = results@;
    let mut items: Vec<Json> = Vec::new();
    for hit in it: results
        invariant
            it.seq() == all,
            items@.len() == it.index(),
            forall|j: int|
                0 <= j < items@.len() ==> (#[trigger] items@[j])@ == result_model(all[j]),
    {
        items.push(result_json(hit));
    }
    assert(json::items_model(items@) =~= all.map_values(
        |hit: ProjectSearchResult| result_model(hit),
    ));
    Fields::new().and("ok", Json::Bool(true)).and("projectId", Json::text(project_id)).and(
        "mode",
        Json::Text(mode),
    ).and("requestedMode", Json::text(requested_mode.name())).and(
        "executedMode",
        Json::text(executed_mode.name()),
    ).and("tokenHits", Json::size(token_hits)).and("vectorHits", Json::size(vector_hits)).and(
        "graphHits",
        Json::size(graph_hits),
    ).and("results", json::array(items))
}

/// A number held between two bounds.
pub open spec fn held_between(n: usize, low: usize, high: usize) -> usize {
    if n < low {
        low
    } else if n > high {
        high
    } else {
        n
    }
}

/// Holds a number between two bounds.
pub fn clamp_size(n: usize, low: usize, high: usize) -> (r: usize)
    ensures
        r == held_between(n, low, high),
{
    if n < low {
        low
    } else if n > high {
        high
    } else {
        n
    }
}

/// How many hits a search is asked for where the request does not say, and at most.
pub const DEFAULT_TOP_K: usize = 10;

pub const MAX_TOP_K: usize = 50;

/// How many hits a search returns at most.
pub open spec fn hits_asked(top_k: Option<usize>) -> usize {
    match top_k {
        Some(n) => held_between(n, 1, MAX_TOP_K),
        None => DEFAULT_TOP_K,
    }
}

/// Tells how many hits a search returns at most.
pub fn requested_hits(top_k: Option<usize>) -> (r: usize)
    ensures
        r == hits_asked(top_k),
{
    match top_k {
        Some(n) => clamp_size(n, 1, MAX_TOP_K),
        None => DEFAULT_TOP_K,
    }
}

/// A request to search a project. The query's vector holds binary32 numbers, given by their bits.
pub struct SearchRequest {
    pub query: String,
    pub mode: SearchMode,
    pub top_k: Option<usize>,
    pub include_content: Option<bool>,
    pub query_embedding: Option<Vec<u32>>,
}

/// A search that is ready for the search engine.
pub struct SearchPlan {
    pub project: ProjectEntry,
    pub query: String,
    pub mode: SearchMode,
    pub top_k: usize,
    pub include_content: bool,
    pub query_embedding: Option<Vec<u32>>,
}

/// Prepares a search, or answers a request that cannot be served: the project is unknown, the
/// body is not the JSON asked for, or there is no query.
pub fn handle_search(
    project: Result<ProjectEntry, String>,
    request: Result<SearchRequest, String>,
) -> (r: Result<SearchPlan, OmnimindResponse>)
    ensures
        match (project, request) {
            (Err(message), _) => r matches Err(refusal) && refusal@ == response::failure(
                404,
                "PROJECT_NOT_FOUND"@,
                message@,
            ),
            (Ok(_), Err(cause)) => r matches Err(refusal) && refusal@ == response::invalid_json(
                cause@,
            ),
            (Ok(project), Ok(request)) => if text::trim(request.query@).len() == 0 {
                r matches Err(refusal) && refusal@ == response::failure(
                    400,
                    "QUERY_REQUIRED"@,
                    "query is required"@,
                )
            } else {
                &&& r matches Ok(plan)
                &&& plan.project == project
                &&& plan.query == request.query
                &&& plan.mode == request.mode
                &&& plan.top_k == hits_asked(request.top_k)
                &&& plan.include_content == (request.include_content == Some(true))
                &&& plan.query_embedding == request.query_embedding
            },
        },
{
    let project = match project {
        Ok(project) => project,
        Err(message) => {
            return Err(response::error_response(404, "PROJECT_NOT_FOUND", message.as_str()));
        },
    };
    let request = match request {
        Ok(request) => request,
        Err(cause) => {
            return Err(response::invalid_json_response(cause.as_str()));
        },
    };
    if text::is_blank(request.query.as_str()) {
        return Err(response::error_response(400, "QUERY_REQUIRED", "query is required"));
    }
    let include_content = match request.include_content {
        Some(include_content) => include_content,
        None => false,
    };
    Ok(
        SearchPlan {
            project,
            query: request.query,
            mode: request.mode,
            top_k: requested_hits(request.top_k),
            include_content,
            query_embedding: request.query_embedding,
        },
    )
}

/// Answers a search whose query could not be made a vector.
pub fn embedding_refused(message: &str) -> (r: OmnimindResponse)
    ensures
        r@ == response::failure(400, "EMBEDDING_ERROR"@, message@),
{
    response::error_response(400, "EMBEDDING_ERROR", message)
}

/// The response for what the search engine answered.
pub open spec fn search_answer(
    project_id: Seq<char>,
    search: Result<ProjectSearchResponse, String>,
) -> ResponseModel {
    match search {
        Ok(search) => response::success(search_model(project_id, search)),
        Err(message) => response::failure(500, "SEARCH_FAILED"@, message@),
    }
}

/// Answers a search with what the search engine answered.
pub fn search_response(project_id: &str, search: Result<ProjectSearchResponse, String>) -> (r:
    OmnimindResponse)
    ensures
        r@ == search_answer(project_id@, search),
{
    match search {
        Ok(search) => response::success_response(search_fields(project_id, search)),
        Err(message) => response::error_response(500, "SEARCH_FAILED", message.as_str()),
    }
}

/// Each hit of a search is written with its own fields: what is read under a name is what the hit
/// holds under it, and there is nothing else.
pub proof fn hit_is_written(hit: ProjectSearchResult)
    ensures
        ({
            let value = result_model(hit);
            &&& value->Object_0.len() == 12
            &&& value.field("path"@) == Some(JsonModel::Text(hit.path@))
            &&& value.field("title"@) == Some(JsonModel::Text(hit.title@))
            &&& value.field("snippet"@) == Some(JsonModel::Text(hit.snippet@))
            &&& value.field("titleMatch"@) == Some(JsonModel::Bool(hit.title_match))
            &&& value.field("score"@) == Some(JsonModel::Float(hit.score))
            &&& value.field("bm25Score"@) == Some(json::optional_float_model(hit.bm25_score))
            &&& value.field("vectorScore"@) == Some(json::optional_float_model(hit.vector_score))
            &&& value.field("graphScore"@) == Some(json::optional_float_model(hit.graph_score))
            &&& value.field("rrfScore"@) == Some(json::optional_float_model(hit.rrf_score))
            &&& value.field("images"@) == Some(JsonModel::Array(json::items_model(hit.images@)))
            &&& value.field("content"@) == Some(optional_text_model(hit.content))
            &&& value.field("graphRelatedTo"@) == Some(
                json::texts_model(text::views(hit.graph_related_to@)),
            )
        }),
        hit.content matches Some(content) ==> optional_text_model(hit.content) == JsonModel::Text(
            content@,
        ),
        hit.content is None ==> optional_text_model(hit.content) == JsonModel::Null,
{
    reveal_strlit("path");
    reveal_strlit("title");
    reveal_strlit("snippet");
    reveal_strlit("titleMatch");
    reveal_strlit("score");
    reveal_strlit("bm25Score");
    reveal_strlit("vectorScore");
    reveal_strlit("graphScore");
    reveal_strlit("rrfScore");
    reveal_strlit("images");
    reveal_strlit("content");
    reveal_strlit("graphRelatedTo");
    assert("path"@.len() == 4 && "title"@.len() == 5 && "snippet"@.len() == 7);
    assert("titleMatch"@.len() == 10 && "score"@.len() == 5 && "bm25Score"@.len() == 9);
    assert("vectorScore"@.len() == 11 && "graphScore"@.len() == 10 && "rrfScore"@.len() == 8);
    assert("images"@.len() == 6 && "content"@.len() == 7 && "graphRelatedTo"@.len() == 14);
    assert("title"@[0] == 't' && "score"@[0] == 's' && "snippet"@[0] == 's');
    assert("content"@[0] == 'c' && "titleMatch"@[0] == 't' && "graphScore"@[0] == 'g');
    let fields = (result_model(hit))->Object_0;
    assert(fields[0] == ("path"@, JsonModel::Text(hit.path@)));
    assert(fields[1] == ("title"@, JsonModel::Text(hit.title@)));
    assert(fields[2] == ("snippet"@, JsonModel::Text(hit.snippet@)));
    assert(fields[3] == ("titleMatch"@, JsonModel::Bool(hit.title_match)));
    assert(fields[4] == ("score"@, JsonModel::Float(hit.score)));
    assert(fields[5] == ("bm25Score"@, json::optional_float_model(hit.bm25_score)));
    assert(fields[6] == ("vectorScore"@, json::optional_float_model(hit.vector_score)));
    assert(fields[7] == ("graphScore"@, json::optional_float_model(hit.graph_score)));
    assert(fields[8] == ("rrfScore"@, json::optional_float_model(hit.rrf_score)));
    assert(fields[9] == ("images"@, JsonModel::Array(json::items_model(hit.images@))));
    assert(fields[10] == ("content"@, optional_text_model(hit.content)));
    assert(fields[11] == (
        "graphRelatedTo"@,
        json::texts_model(text::views(hit.graph_related_to@)),
    ));
    json::each_field_is_read(fields);
}

/// The answer to a search names the project, tells the modes and the counts of the search engine,
/// and holds its hits in their order.
pub proof fn answer_of_search_is_written(project_id: Seq<char>, search: ProjectSearchResponse, i: int)
    ensures
        ({
            let value = search_answer(project_id, Ok(search)).body;
            &&& value->Object_0.len() == 9
            &&& value.field("ok"@) == Some(JsonModel::Bool(true))
            &&& value.field("projectId"@) == Some(JsonModel::Text(project_id))
            &&& value.field("mode"@) == Some(JsonModel::Text(search.mode@))
            &&& value.field("requestedMode"@) == Some(
                JsonModel::Text(mode_name(search.requested_mode)),
            )
            &&& value.field("executedMode"@) == Some(
                JsonModel::Text(mode_name(search.executed_mode)),
            )
            &&& value.field("tokenHits"@) == Some(JsonModel::UInt(search.token_hits as nat))
            &&& value.field("vectorHits"@) == Some(JsonModel::UInt(search.vector_hits as nat))
            &&& value.field("graphHits"@) == Some(JsonModel::UInt(search.graph_hits as nat))
            &&& value.field("results"@) == Some(
                JsonModel::Array(
                    search.results@.map_values(|hit: ProjectSearchResult| result_model(hit)),
                ),
            )
        }),
        search_answer(project_id, Ok(search)).status == 200,
        ({
            let results = search_answer(project_id, Ok(search)).body.field("results"@)->0;
            &&& results->Array_0.len() == search.results@.len()
            &&& 0 <= i < search.results@.len() ==> results->Array_0[i] == result_model(
                search.results@[i],
            )
        }),
{
    reveal_strlit("ok");
    reveal_strlit("projectId");
    reveal_strlit("mode");
    reveal_strlit("requestedMode");
    reveal_strlit("executedMode");
    reveal_strlit("tokenHits");
    reveal_strlit("vectorHits");
    reveal_strlit("graphHits");
    reveal_strlit("results");
    assert("ok"@.len() == 2 && "projectId"@.len() == 9 && "mode"@.len() == 4);
    assert("requestedMode"@.len() == 13 && "executedMode"@.len() == 12 && "tokenHits"@.len() == 9);
    assert("vectorHits"@.len() == 10 && "graphHits"@.len() == 9 && "results"@.len() == 7);
    assert("projectId"@[0] == 'p' && "tokenHits"@[0] == 't' && "graphHits"@[0] == 'g');
    let fields = (search_answer(project_id, Ok(search)).body)->Object_0;
    assert(fields[0] == ("ok"@, JsonModel::Bool(true)));
    assert(fields[1] == ("projectId"@, JsonModel::Text(project_id)));
    assert(fields[2] == ("mode"@, JsonModel::Text(search.mode@)));
    assert(fields[3] == ("requestedMode"@, JsonModel::Text(mode_name(search.requested_mode))));
    assert(fields[4] == ("executedMode"@, JsonModel::Text(mode_name(search.executed_mode))));
    assert(fields[5] == ("tokenHits"@, JsonModel::UInt(search.token_hits as nat)));
    assert(fields[6] == ("vectorHits"@, JsonModel::UInt(search.vector_hits as nat)));
    assert(fields[7] == ("graphHits"@, JsonModel::UInt(search.graph_hits as nat)));
    assert(fields[8] == (
        "results"@,
        JsonModel::Array(
                    search.results@.map_values(|hit: ProjectSearchResult| result_model(hit)),
                ),
    ));
    json::each_field_is_read(fields);
}

/// A search that failed is answered with an error that tells why.
pub proof fn failed_search_is_told(project_id: Seq<char>, message: String)
    ensures
        response::tells_error(
            search_answer(project_id, Err(message)),
            500,
            "SEARCH_FAILED"@,
            message@,
        ),
{
    response::errors_are_told(500, "SEARCH_FAILED"@, message@);
}

/// The modes of a search are known by these names.
pub proof fn modes_have_names(mode: SearchMode)
    ensures
        mode_name(SearchMode::Bm25) == "bm25"@,
        mode_name(SearchMode::Vector) == "vector"@,
        mode_name(SearchMode::Graph) == "graph"@,
        mode_name(SearchMode::Hybrid) == "hybrid"@,
{
}

/// A number between two bounds is kept; any other becomes the bound that it lies beyond.
pub proof fn bounds_hold(n: usize, low: usize, high: usize)
    requires
        low <= high,
    ensures
        low <= held_between(n, low, high) <= high,
        low <= n <= high ==> held_between(n, low, high) == n,
        n <= low ==> held_between(n, low, high) == low,
        n >= high ==> held_between(n, low, high) == high,
{
}

/// A search returns as many hits as are asked for, but at least one and at most 50; 10 where
/// the request does not say.
pub proof fn hits_are_bounded(n: usize)
    ensures
        1 <= n <= 50 ==> hits_asked(Some(n)) == n,
        n == 0 ==> hits_asked(Some(n)) == 1,
        n > 50 ==> hits_asked(Some(n)) == 50,
        hits_asked(None) == 10,
{
}

/// Scores are ordered as the numbers that their bits stand for: without the sign bit a larger
/// pattern is a larger number, with it a smaller one, and the two zeros are one. Patterns beyond
/// the infinite stand for no number.
pub proof fn scores_go_by_value(a: u64, b: u64)
    ensures
        0x7ff0_0000_0000_0000 < a < 0x8000_0000_0000_0000 ==> score_rank(a) is None,
        0xfff0_0000_0000_0000 < a ==> score_rank(a) is None,
        a <= 0x7ff0_0000_0000_0000 && b <= 0x7ff0_0000_0000_0000 ==> {
            &&& score_rank(a) is Some && score_rank(b) is Some
            &&& score_rank(a)->0 < score_rank(b)->0 <==> a < b
        },
        0x8000_0000_0000_0000 <= a <= 0xfff0_0000_0000_0000 && 0x8000_0000_0000_0000 <= b
            <= 0xfff0_0000_0000_0000 ==> {
            &&& score_rank(a) is Some && score_rank(b) is Some
            &&& score_rank(a)->0 < score_rank(b)->0 <==> a > b
        },
        0x8000_0000_0000_0000 < a <= 0xfff0_0000_0000_0000 && b <= 0x7ff0_0000_0000_0000
            ==> score_rank(a)->0 < score_rank(b)->0,
        score_rank(0x8000_0000_0000_0000) == score_rank(0),
{
}

/// Of two hits the one with the greater score goes ahead, and of two with one score the one whose
/// path comes before.
pub proof fn better_hit_goes_ahead(a: ProjectSearchResult, b: ProjectSearchResult)
    ensures
        a.score <= 0x7ff0_0000_0000_0000 && b.score <= 0x7ff0_0000_0000_0000 ==> {
            &&& a.score > b.score ==> order::ahead(a, b)
            &&& a.score < b.score ==> !order::ahead(a, b)
            &&& a.score == b.score ==> order::ahead(a, b) == order::text_before(a.path@, b.path@)
        },
{
}

} // verus!

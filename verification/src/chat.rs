//! The chat-context endpoint: what a question may read, how it is searched for, and the answer.
use crate::context;
use crate::context::{ContextBudget, Packed, SourceFilterStats};
use crate::json;
use crate::json::{Fields, Json, JsonModel};
use crate::mode;
use crate::mode::RetrievalMode;
use crate::order;
use crate::order::TextSet;
use crate::projects::ProjectEntry;
use crate::response;
use crate::response::{OmnimindResponse, ResponseModel};
use crate::scope;
use crate::scope_check;
use crate::scope_check::{ScopeStep, ValidatedSourceFileScope};
use crate::search;
use crate::search::ProjectSearchResponse;
use crate::text;
use vstd::prelude::*;
use vstd::string::*;

verus! {

/// A message of the conversation so far.
pub struct ChatHistoryMessage {
    pub role: String,
    pub content: String,
}

/// A request for the context of a chat. The query's vector holds binary32 numbers, given by their
/// bits.
pub struct ChatContextRequest {
    pub query: String,
    pub query_embedding: Option<Vec<u32>>,
    pub history: Vec<ChatHistoryMessage>,
    pub max_history_messages: Option<usize>,
    pub max_context_size: Option<usize>,
    pub top_k: Option<usize>,
    pub max_block_chars: Option<usize>,
    pub output_language: Option<String>,
    pub include_debug: bool,
    pub retrieval_mode: Option<String>,
    pub allowed_source_paths: Option<Vec<String>>,
}

/// What a search reports of itself.
pub struct RetrievalSearchStats<'a> {
    pub search_mode: &'a str,
    pub vector_hits: usize,
    pub token_hits: usize,
    pub graph_hits: usize,
}

/// The mathematical value of what a search reports of itself.
pub ghost struct SearchStats {
    pub search_mode: Seq<char>,
    pub vector_hits: usize,
    pub token_hits: usize,
    pub graph_hits: usize,
}

impl<'a> View for RetrievalSearchStats<'a> {
    type V = SearchStats;

    open spec fn view(&self) -> SearchStats {
        SearchStats {
            search_mode: self.search_mode@,
            vector_hits: self.vector_hits,
            token_hits: self.token_hits,
            graph_hits: self.graph_hits,
        }
    }
}

/// The value of what a search reports of itself, if there was one.
pub open spec fn stats_view(stats: Option<RetrievalSearchStats>) -> Option<SearchStats> {
    match stats {
        Some(stats) => Some(stats@),
        None => None,
    }
}

/// How many characters the conversation so far has.
pub open spec fn history_chars(history: Seq<ChatHistoryMessage>) -> nat
    decreases history.len(),
{
    if history.len() == 0 {
        0
    } else {
        history_chars(history.drop_last()) + history.last().content@.len()
    }
}

/// The number, or the largest that a machine word holds.
pub open spec fn saturated(n: nat) -> nat {
    if n <= usize::MAX {
        n
    } else {
        usize::MAX as nat
    }
}

/// Counts the characters of the conversation so far.
fn count_history_chars(history: &Vec<ChatHistoryMessage>) -> (r: usize)
    ensures
        r == saturated(history_chars(history@)),
{
    let mut total: usize = 0;
    let mut i: usize = 0;
    while i < history.len()
        invariant
            i <= history@.len(),
            total == saturated(history_chars(history@.take(i as int))),
        decreases history@.len() - i,
    {
        assert(history@.take(i + 1).drop_last() =~= history@.take(i as int));
        total = total.saturating_add(text::chars_of(history[i].content.as_str()).len());
        i = i + 1;
    }
    assert(history@.take(i as int) =~= history@);
    total
}

/// What is always told of a retrieval: its mode, and what the allowlist did, in numbers.
pub open spec fn brief_debug(retrieval_mode: Seq<char>, stats: SourceFilterStats) -> Seq<
    (Seq<char>, JsonModel),
> {
    json::no_fields().push(("retrieval_mode"@, JsonModel::Text(retrieval_mode))).push(
        ("source_filter_active"@, JsonModel::Bool(stats.active)),
    ).push(("source_filter_allowed_count"@, JsonModel::UInt(stats.allowed_count as nat))).push(
        ("source_filter_matched_count"@, JsonModel::UInt(stats.matched_count as nat)),
    )
}

/// The difference of two numbers, or nothing.
pub open spec fn less(a: usize, b: usize) -> nat {
    if a > b {
        (a - b) as nat
    } else {
        0
    }
}

/// What is told of a retrieval on request.
pub open spec fn full_debug(
    request: ChatContextRequest,
    retrieval_mode: Seq<char>,
    scan_roots: Seq<Seq<char>>,
    result_count: nat,
    cap: Option<usize>,
    stats: SourceFilterStats,
) -> Seq<(Seq<char>, JsonModel)> {
    json::no_fields().push(("retrieval_mode"@, JsonModel::Text(retrieval_mode))).push(
        ("scan_roots"@, json::texts_model(scan_roots)),
    ).push(("result_count"@, JsonModel::UInt(result_count))).push(
        ("include_debug"@, JsonModel::Bool(true)),
    ).push(("mode"@, JsonModel::Text("server-only"@))).push(
        ("history_message_count"@, JsonModel::UInt(request.history@.len())),
    ).push(
        ("history_content_chars"@, JsonModel::UInt(saturated(history_chars(request.history@)))),
    ).push(("requested_top_k"@, JsonModel::UInt(search::hits_asked(request.top_k) as nat))).push(
        ("requested_max_context_size"@, json::optional_size_model(request.max_context_size)),
    ).push(
        (
            "effective_max_context_size"@,
            JsonModel::UInt(context::budget_for(request.max_context_size).max_ctx as nat),
        ),
    ).push(
        ("requested_max_block_chars"@, json::optional_size_model(request.max_block_chars)),
    ).push(("effective_max_block_chars"@, json::optional_size_model(cap))).push(
        ("source_filter_active"@, JsonModel::Bool(stats.active)),
    ).push(("source_filter_allowed_count"@, JsonModel::UInt(stats.allowed_count as nat))).push(
        ("source_filter_candidate_count"@, JsonModel::UInt(stats.candidate_count as nat)),
    ).push(("source_filter_matched_count"@, JsonModel::UInt(stats.matched_count as nat))).push(
        (
            "source_filter_excluded_count"@,
            JsonModel::UInt(less(stats.candidate_count, stats.matched_count)),
        ),
    )
}

/// What is told of a retrieval.
pub open spec fn debug_model(
    request: ChatContextRequest,
    retrieval_mode: Seq<char>,
    scan_roots: Seq<Seq<char>>,
    result_count: nat,
    cap: Option<usize>,
    stats: SourceFilterStats,
    search_stats: Option<SearchStats>,
) -> JsonModel {
    let full = full_debug(request, retrieval_mode, scan_roots, result_count, cap, stats);
    JsonModel::Object(
        if !request.include_debug {
            brief_debug(retrieval_mode, stats)
        } else {
            match search_stats {
                None => full,
                Some(search) => full.push(("search_mode"@, JsonModel::Text(search.search_mode))).push(
                    ("vector_hits"@, JsonModel::UInt(search.vector_hits as nat)),
                ).push(("token_hits"@, JsonModel::UInt(search.token_hits as nat))).push(
                    ("graph_hits"@, JsonModel::UInt(search.graph_hits as nat)),
                ),
            }
        },
    )
}

/// Tells of a retrieval: in brief, or in full on request. The paths of an allowlist are never
/// told, only how many there are.
pub fn build_retrieval_debug(
    request: &ChatContextRequest,
    retrieval_mode: &str,
    scan_roots: &[String],
    result_count: usize,
    effective_max_block_chars: Option<usize>,
    source_filter_stats: SourceFilterStats,
    search_stats: Option<RetrievalSearchStats>,
) -> (r: Json)
    ensures
        r@ == debug_model(
            *request,
            retrieval_mode@,
            text::views(scan_roots@),
            result_count as nat,
            effective_max_block_chars,
            source_filter_stats,
            stats_view(search_stats),
        ),
{
    let stats = source_filter_stats;
    if !request.include_debug {
        return Fields::new().and("retrieval_mode", Json::text(retrieval_mode)).and(
            "source_filter_active",
            Json::Bool(stats.active),
        ).and("source_filter_allowed_count", Json::size(stats.allowed_count)).and(
            "source_filter_matched_count",
            Json::size(stats.matched_count),
        ).object();
    }
    let excluded: usize = if stats.candidate_count > stats.matched_count {
        stats.candidate_count - stats.matched_count
    } else {
        0
    };
    let budget = context::compute_context_budget(request.max_context_size);
    let full = Fields::new().and("retrieval_mode", Json::text(retrieval_mode)).and(
        "scan_roots",
        Json::texts(scan_roots),
    ).and("result_count", Json::size(result_count)).and("include_debug", Json::Bool(true)).and(
        "mode",
        Json::text("server-only"),
    ).and("history_message_count", Json::size(request.history.len())).and(
        "history_content_chars",
        Json::size(count_history_chars(&request.history)),
    ).and("requested_top_k", Json::size(search::requested_hits(request.top_k))).and(
        "requested_max_context_size",
        Json::optional_size(request.max_context_size),
    ).and("effective_max_context_size", Json::size(budget.max_ctx)).and(
        "requested_max_block_chars",
        Json::optional_size(request.max_block_chars),
    ).and("effective_max_block_chars", Json::optional_size(effective_max_block_chars)).and(
        "source_filter_active",
        Json::Bool(stats.active),
    ).and("source_filter_allowed_count", Json::size(stats.allowed_count)).and(
        "source_filter_candidate_count",
        Json::size(stats.candidate_count),
    ).and("source_filter_matched_count", Json::size(stats.matched_count)).and(
        "source_filter_excluded_count",
        Json::size(excluded),
    );
    match search_stats {
        None => full.object(),
        Some(search) => full.and("search_mode", Json::text(search.search_mode)).and(
            "vector_hits",
            Json::size(search.vector_hits),
        ).and("token_hits", Json::size(search.token_hits)).and(
            "graph_hits",
            Json::size(search.graph_hits),
        ).object(),
    }
}

/// Two requests that differ in their allowlists alone are told the same of a retrieval.
pub proof fn debug_hides_allowlist(
    a: ChatContextRequest,
    paths: Option<Vec<String>>,
    retrieval_mode: Seq<char>,
    scan_roots: Seq<Seq<char>>,
    result_count: nat,
    cap: Option<usize>,
    stats: SourceFilterStats,
    search_stats: Option<SearchStats>,
)
    ensures
        ({
            let b = ChatContextRequest { allowed_source_paths: paths, ..a };
            debug_model(a, retrieval_mode, scan_roots, result_count, cap, stats, search_stats)
                == debug_model(
                b,
                retrieval_mode,
                scan_roots,
                result_count,
                cap,
                stats,
                search_stats,
            )
        }),
{
}

/// The budget as JSON.
pub open spec fn budget_model(budget: ContextBudget, cap: Option<usize>) -> JsonModel {
    JsonModel::Object(
        json::no_fields().push(("max_ctx"@, JsonModel::UInt(budget.max_ctx as nat))).push(
            ("response_reserve"@, JsonModel::UInt(budget.response_reserve as nat)),
        ).push(("index_budget"@, JsonModel::UInt(budget.index_budget as nat))).push(
            ("page_budget"@, JsonModel::UInt(budget.page_budget as nat)),
        ).push(("max_page_size"@, JsonModel::UInt(budget.max_page_size as nat))).push(
            ("max_block_chars"@, json::optional_size_model(cap)),
        ),
    )
}

/// What the response to a request for context is made from, besides the context.
pub struct ChatContextResponseContext<'a> {
    pub project_id: &'a str,
    pub request: &'a ChatContextRequest,
    pub budget: &'a ContextBudget,
    pub effective_max_block_chars: Option<usize>,
    pub mode_label: &'a str,
    pub mode_scan_roots: &'a [String],
}

/// The response with some blocks and references: one form for a context and for none.
pub open spec fn context_response(
    ctx: ChatContextResponseContext,
    blocks: Seq<JsonModel>,
    references: Seq<JsonModel>,
    stats: SourceFilterStats,
    search_stats: Option<SearchStats>,
) -> ResponseModel {
    let status = if blocks.len() == 0 {
        "EMPTY_CONTEXT"@
    } else {
        "SUCCESS"@
    };
    response::success(
        json::no_fields().push(("ok"@, JsonModel::Bool(true))).push(
            ("status"@, JsonModel::Text(status)),
        ).push(("project_id"@, JsonModel::Text(ctx.project_id@))).push(
            ("query"@, JsonModel::Text(ctx.request.query@)),
        ).push(("context_blocks"@, JsonModel::Array(blocks))).push(
            ("references"@, JsonModel::Array(references)),
        ).push(("budget"@, budget_model(*ctx.budget, ctx.effective_max_block_chars))).push(
            (
                "retrieval_debug"@,
                debug_model(
                    *ctx.request,
                    ctx.mode_label@,
                    text::views(ctx.mode_scan_roots@),
                    blocks.len(),
                    ctx.effective_max_block_chars,
                    stats,
                    search_stats,
                ),
            ),
        ),
    )
}

impl<'a> ChatContextResponseContext<'a> {
    /// Makes the response with some blocks and references.
    pub fn build(
        &self,
        context_blocks: Vec<Json>,
        references: Vec<Json>,
        source_filter_stats: SourceFilterStats,
        search_stats: Option<RetrievalSearchStats>,
    ) -> (r: OmnimindResponse)
        ensures
            r@ == context_response(
                *self,
                json::items_model(context_blocks@),
                json::items_model(references@),
                source_filter_stats,
                stats_view(search_stats),
            ),
    {
        let count: usize = context_blocks.len();
        let status = if count == 0 {
            "EMPTY_CONTEXT"
        } else {
            "SUCCESS"
        };
        let budget = Fields::new().and("max_ctx", Json::size(self.budget.max_ctx)).and(
            "response_reserve",
            Json::size(self.budget.response_reserve),
        ).and("index_budget", Json::size(self.budget.index_budget)).and(
            "page_budget",
            Json::size(self.budget.page_budget),
        ).and("max_page_size", Json::size(self.budget.max_page_size)).and(
            "max_block_chars",
            Json::optional_size(self.effective_max_block_chars),
        );
        let debug = build_retrieval_debug(
            self.request,
            self.mode_label,
            self.mode_scan_roots,
            count,
            self.effective_max_block_chars,
            source_filter_stats,
            search_stats,
        );
        response::success_response(
            Fields::new().and("ok", Json::Bool(true)).and("status", Json::text(status)).and(
                "project_id",
                Json::text(self.project_id),
            ).and("query", Json::text(self.request.query.as_str())).and(
                "context_blocks",
                json::array(context_blocks),
            ).and("references", json::array(references)).and("budget", budget.object()).and(
                "retrieval_debug",
                debug,
            ),
        )
    }
}

/// The response to a question whose retrieval failed: the same whatever went wrong inside.
pub open spec fn retrieval_failed() -> ResponseModel {
    response::failure(502, "RETRIEVAL_FAILED"@, "Knowledge retrieval failed"@)
}

/// Answers a question whose retrieval failed, without a word of what went wrong inside.
pub fn retrieval_failed_response(_internal_error: &str) -> (r: OmnimindResponse)
    ensures
        r@ == retrieval_failed(),
{
    response::error_response(502, "RETRIEVAL_FAILED", "Knowledge retrieval failed")
}

/// The part of an error text that its kind is read from, in small letters.
pub open spec fn error_head(internal_error: Seq<char>) -> Seq<char> {
    text::ascii_lower(context::head(internal_error, 4_096))
}

/// The kind of an error.
pub open spec fn error_category(internal_error: Seq<char>) -> Seq<char> {
    let t = error_head(internal_error);
    if text::contains(t, "embedding"@) || text::contains(t, "provider"@) {
        "provider_or_embedding"@
    } else if text::contains(t, "vector"@) || text::contains(t, "lance"@) {
        "vector_store"@
    } else if text::contains(t, "scan"@) || text::contains(t, "file"@) || text::contains(t, "path"@)
        || text::contains(t, "permission"@) {
        "project_io"@
    } else {
        "internal"@
    }
}

/// The line that is logged for a failed retrieval: a fixed text and the kind of the error.
pub open spec fn log_line(category: Seq<char>) -> Seq<char> {
    "[OmniMind Server] chat-context retrieval failed code=RETRIEVAL_FAILED category="@ + category
}

/// Writes the line that is logged for a failed retrieval.
pub fn safe_retrieval_log_line(internal_error: &str) -> (r: String)
    ensures
        r@ == log_line(error_category(internal_error@)),
{
    let all = text::chars_of(internal_error);
    let end: usize = if all.len() > 4_096 {
        4_096
    } else {
        all.len()
    };
    let first = text::text_between(all.as_slice(), 0, end);
    assert(first@ =~= context::head(internal_error@, 4_096));
    let lower = text::ascii_lowered(first.as_str());
    let t = lower.as_str();
    let category = if text::contains_text(t, "embedding") || text::contains_text(t, "provider") {
        "provider_or_embedding"
    } else if text::contains_text(t, "vector") || text::contains_text(t, "lance") {
        "vector_store"
    } else if text::contains_text(t, "scan") || text::contains_text(t, "file")
        || text::contains_text(t, "path") || text::contains_text(t, "permission") {
        "project_io"
    } else {
        "internal"
    };
    response::message_with(
        "[OmniMind Server] chat-context retrieval failed code=RETRIEVAL_FAILED category=",
        category,
    )
}

/// Whatever an error says, the line that is logged for it is one of four fixed texts.
pub proof fn log_line_is_fixed(internal_error: Seq<char>)
    ensures
        ({
            let line = log_line(error_category(internal_error));
            ||| line == log_line("provider_or_embedding"@)
            ||| line == log_line("vector_store"@)
            ||| line == log_line("project_io"@)
            ||| line == log_line("internal"@)
        }),
{
}

/// Why a request for context is refused before anything is read, if it is.
pub open spec fn refusal(
    project: Result<ProjectEntry, String>,
    request: Result<ChatContextRequest, String>,
) -> Option<ResponseModel> {
    match (project, request) {
        (Err(message), _) => Some(response::failure(404, "PROJECT_NOT_FOUND"@, message@)),
        (Ok(_), Err(cause)) => Some(
            response::failure(
                400,
                "INVALID_JSON"@,
                "Request body must be valid JSON: "@ + cause@,
            ),
        ),
        (Ok(_), Ok(request)) => if text::trim(request.query@).len() == 0 {
            Some(response::failure(400, "INVALID_QUERY"@, "query must not be empty"@))
        } else if request.max_block_chars == Some(0usize) {
            Some(
                response::failure(
                    400,
                    "INVALID_MAX_BLOCK_CHARS"@,
                    "max_block_chars must be greater than zero"@,
                ),
            )
        } else {
            match scope::allowlist(requested_paths(request)) {
                Err(reason) => Some(
                    response::failure(400, "INVALID_ALLOWED_SOURCE_PATHS"@, reason),
                ),
                Ok(_) => None,
            }
        },
    }
}

/// The paths that a request allows, if it says.
pub open spec fn requested_paths(request: ChatContextRequest) -> Option<Seq<Seq<char>>> {
    match request.allowed_source_paths {
        Some(paths) => Some(text::views(paths@)),
        None => None,
    }
}

/// A request whose allowlist is being checked against the file system.
pub struct ChatCheck {
    pub project: ProjectEntry,
    pub request: ChatContextRequest,
    pub step: ScopeStep,
}

/// The paths of an allowlist in ascending order.
pub open spec fn sorted_paths(allowed: Option<Set<Seq<char>>>) -> Option<Seq<Seq<char>>> {
    match allowed {
        Some(set) => Some(order::sorted(set)),
        None => None,
    }
}

/// Takes up a request for context: refuses it, or begins the check of its allowlist below the
/// project.
pub fn handle_chat_context(
    project: Result<ProjectEntry, String>,
    request: Result<ChatContextRequest, String>,
) -> (r: Result<ChatCheck, OmnimindResponse>)
    ensures
        match r {
            Err(answer) => refusal(project, request) == Some(answer@),
            Ok(check) => {
                &&& refusal(project, request) is None
                &&& project == Ok::<ProjectEntry, String>(check.project)
                &&& request == Ok::<ChatContextRequest, String>(check.request)
                &&& check.step@ == scope_check::begin(
                    check.project.path@,
                    sorted_paths(scope::allowlist(requested_paths(check.request))->Ok_0),
                )
            },
        },
{
    let project = match project {
        Ok(project) => project,
        Err(message) => {
            return Err(response::error_response(404, "PROJECT_NOT_FOUND", message.as_str()));
        },
    };
    let request = match request {
        Ok(request) => request,
        Err(cause) => {
            let message = response::message_with(
                "Request body must be valid JSON: ",
                cause.as_str(),
            );
            return Err(response::error_response(400, "INVALID_JSON", message.as_str()));
        },
    };
    if text::is_blank(request.query.as_str()) {
        return Err(response::error_response(400, "INVALID_QUERY", "query must not be empty"));
    }
    match request.max_block_chars {
        Some(n) => {
            if n == 0 {
                return Err(
                    response::error_response(
                        400,
                        "INVALID_MAX_BLOCK_CHARS",
                        "max_block_chars must be greater than zero",
                    ),
                );
            }
        },
        None => {},
    }
    let requested = match &request.allowed_source_paths {
        Some(paths) => Some(paths.as_slice()),
        None => None,
    };
    assert(scope::optional_views(requested) == requested_paths(request));
    match scope::normalize_allowed_source_paths(requested) {
        Ok(allowed) => {
            let step = scope_check::validate_allowed_source_files(project.path.as_str(), allowed);
            Ok(ChatCheck { project, request, step })
        },
        Err(reason) => Err(
            response::error_response(400, "INVALID_ALLOWED_SOURCE_PATHS", reason),
        ),
    }
}

/// A search that is ready for the search engine.
pub struct ChatSearch {
    pub request: ChatContextRequest,
    pub mode: RetrievalMode,
    pub project_root: String,
    pub allowed: Option<TextSet>,
    pub scan_roots: Vec<String>,
    pub top_k: usize,
}

/// What a request for context needs next.
pub enum ChatPlan {
    /// Nothing: here is the response.
    Respond(OmnimindResponse),
    /// The vector of the query, and then the search.
    Embed(ChatSearch),
    /// The search, without a vector.
    Search(ChatSearch),
}

/// The mode of a request.
pub open spec fn mode_of(request: ChatContextRequest) -> RetrievalMode {
    mode::requested_mode(text::optional_text(request.retrieval_mode))
}

/// The cap on one block of a request's context.
pub open spec fn cap_of(request: ChatContextRequest) -> Option<usize> {
    context::block_cap(request.max_block_chars, context::budget_for(request.max_context_size))
}

/// The response to a request with a context.
pub open spec fn chat_response(
    project_id: Seq<char>,
    request: ChatContextRequest,
    found: Seq<Packed>,
    stats: SourceFilterStats,
    search_stats: Option<SearchStats>,
) -> ResponseModel {
    let blocks = context::block_models(found);
    response::success(
        json::no_fields().push(("ok"@, JsonModel::Bool(true))).push(
            (
                "status"@,
                JsonModel::Text(
                    if found.len() == 0 {
                        "EMPTY_CONTEXT"@
                    } else {
                        "SUCCESS"@
                    },
                ),
            ),
        ).push(("project_id"@, JsonModel::Text(project_id))).push(
            ("query"@, JsonModel::Text(request.query@)),
        ).push(("context_blocks"@, JsonModel::Array(blocks))).push(
            ("references"@, JsonModel::Array(context::reference_models(found))),
        ).push(
            ("budget"@, budget_model(context::budget_for(request.max_context_size), cap_of(request))),
        ).push(
            (
                "retrieval_debug"@,
                debug_model(
                    request,
                    mode::label(mode_of(request)),
                    mode::mode_roots(mode_of(request)),
                    found.len(),
                    cap_of(request),
                    stats,
                    search_stats,
                ),
            ),
        ),
    )
}

/// The counts of a filter that had nothing to filter.
pub open spec fn nothing_searched(allowed: Option<Set<Seq<char>>>) -> SourceFilterStats {
    SourceFilterStats {
        active: true,
        allowed_count: match allowed {
            Some(set) => set.len() as usize,
            None => 0,
        },
        candidate_count: 0,
        matched_count: 0,
    }
}

/// The texts of an optional set in ascending order.
pub open spec fn texts_of(set: Option<TextSet>) -> Option<Seq<Seq<char>>> {
    match set {
        Some(set) => Some(set.texts()),
        None => None,
    }
}

/// Whether a search is that of a request in a scope.
pub open spec fn is_search_of(
    s: ChatSearch,
    request: ChatContextRequest,
    scope: ValidatedSourceFileScope,
) -> bool {
    &&& s.request == request
    &&& s.mode == mode_of(request)
    &&& s.project_root == scope.project_root
    &&& s.allowed == scope.allowed_paths
    &&& text::views(s.scan_roots@) == scope::scan_roots(
        mode_of(request),
        texts_of(scope.allowed_paths),
    )
    &&& s.top_k == search::hits_asked(request.top_k)
}

/// Makes the response with some blocks and references for a request.
fn respond(
    project_id: &str,
    request: &ChatContextRequest,
    blocks: Vec<Json>,
    references: Vec<Json>,
    Ghost(found): Ghost<Seq<Packed>>,
    stats: SourceFilterStats,
    search_stats: Option<RetrievalSearchStats>,
) -> (r: OmnimindResponse)
    requires
        json::items_model(blocks@) == context::block_models(found),
        json::items_model(references@) == context::reference_models(found),
    ensures
        r@ == chat_response(project_id@, *request, found, stats, stats_view(search_stats)),
{
    let mode = mode::parse_retrieval_mode(text::optional_str(&request.retrieval_mode));
    let budget = context::compute_context_budget(request.max_context_size);
    let cap = context::compute_effective_max_block_chars(request.max_block_chars, &budget);
    let roots = mode::scan_roots_for_mode(mode);
    let ctx = ChatContextResponseContext {
        project_id,
        request,
        budget: &budget,
        effective_max_block_chars: cap,
        mode_label: mode::retrieval_mode_label(mode),
        mode_scan_roots: roots.as_slice(),
    };
    assert(context::block_models(found).len() == found.len());
    ctx.build(blocks, references, stats, search_stats)
}

/// Goes on with a request whose allowlist was checked. Where nothing of the allowlist lies in
/// what the mode searches, the response is the empty context: the search is not asked at all.
pub fn plan_chat_context(
    project_id: &str,
    request: ChatContextRequest,
    scope: Result<ValidatedSourceFileScope, &'static str>,
) -> (r: ChatPlan)
    ensures
        match scope {
            Err(reason) => r matches ChatPlan::Respond(answer) && answer@ == response::failure(
                400,
                "INVALID_ALLOWED_SOURCE_PATHS"@,
                reason@,
            ),
            Ok(scope) => {
                let roots = scope::scan_roots(mode_of(request), texts_of(scope.allowed_paths));
                if roots.len() == 0 {
                    r matches ChatPlan::Respond(answer) && answer@ == chat_response(
                        project_id@,
                        request,
                        Seq::empty(),
                        nothing_searched(scope::optional_set(scope.allowed_paths)),
                        None,
                    )
                } else if mode_of(request) == RetrievalMode::SourcesOnly {
                    r matches ChatPlan::Search(s) && is_search_of(s, request, scope)
                } else {
                    r matches ChatPlan::Embed(s) && is_search_of(s, request, scope)
                }
            },
        },
{
    let scope = match scope {
        Ok(scope) => scope,
        Err(reason) => {
            return ChatPlan::Respond(
                response::error_response(400, "INVALID_ALLOWED_SOURCE_PATHS", reason),
            );
        },
    };
    let mode = mode::parse_retrieval_mode(text::optional_str(&request.retrieval_mode));
    let allowed = scope.allowed_paths.as_ref();
    assert(scope::optional_texts(allowed) == texts_of(scope.allowed_paths));
    let scan_roots = scope::resolve_chat_context_scan_roots(mode, allowed);
    assert(text::views(scan_roots@).len() == scan_roots@.len());
    if scan_roots.len() == 0 {
        let allowed_count: usize = match &scope.allowed_paths {
            Some(set) => set.len(),
            None => 0,
        };
        let stats = SourceFilterStats {
            active: true,
            allowed_count,
            candidate_count: 0,
            matched_count: 0,
        };
        let blocks: Vec<Json> = Vec::new();
        let references: Vec<Json> = Vec::new();
        proof {
            let none: Seq<Packed> = Seq::empty();
            assert(json::items_model(blocks@) =~= context::block_models(none));
            assert(json::items_model(references@) =~= context::reference_models(none));
        }
        return ChatPlan::Respond(
            respond(project_id, &request, blocks, references, Ghost(Seq::empty()), stats, None),
        );
    }
    let top_k: usize = search::requested_hits(request.top_k);
    let s = ChatSearch {
        request,
        mode,
        project_root: scope.project_root,
        allowed: scope.allowed_paths,
        scan_roots,
        top_k,
    };
    if mode == RetrievalMode::SourcesOnly {
        ChatPlan::Search(s)
    } else {
        ChatPlan::Embed(s)
    }
}

/// The context that the hits of a search are made into.
pub open spec fn found_context(
    s: ChatSearch,
    hits: Seq<search::ProjectSearchResult>,
) -> Seq<Packed> {
    context::context_of(
        context::context_order(
            s.mode,
            context::filtered(hits, scope::optional_set(s.allowed)),
        ),
        context::budget_for(s.request.max_context_size),
        cap_of(s.request),
    )
}

/// The response to a request for what the search engine answered.
pub open spec fn chat_answer(
    project_id: Seq<char>,
    s: ChatSearch,
    answer: Result<ProjectSearchResponse, String>,
) -> ResponseModel {
    match answer {
        Err(_) => retrieval_failed(),
        Ok(search) => chat_response(
            project_id,
            s.request,
            found_context(s, search.results@),
            context::filter_stats(search.results@, scope::optional_set(s.allowed)),
            Some(
                SearchStats {
                    search_mode: search.mode@,
                    vector_hits: search.vector_hits,
                    token_hits: search.token_hits,
                    graph_hits: search.graph_hits,
                },
            ),
        ),
    }
}

impl ChatSearch {
    /// Tells whether the search is held to the paths of an allowlist.
    pub fn is_scoped(&self) -> (r: bool)
        ensures
            r == (self.allowed is Some),
    {
        self.allowed.is_some()
    }

    /// Answers the request with what the search engine answered: the hits are held to the
    /// allowlist, ordered and packed.
    pub fn respond_to(self, project_id: &str, answer: Result<ProjectSearchResponse, String>) -> (r:
        OmnimindResponse)
        ensures
            r@ == chat_answer(project_id@, self, answer),
    {
        let search = match answer {
            Ok(search) => search,
            Err(message) => {
                return retrieval_failed_response(message.as_str());
            },
        };
        let ghost hits = search.results@;
        let allowed = self.allowed.as_ref();
        assert(context::set_of(allowed) == scope::optional_set(self.allowed));
        let (kept, stats) = context::filter_results_by_allowed_source_paths(
            search.results,
            allowed,
        );
        let ordered = context::order_results_for_context(self.mode, kept);
        let budget = context::compute_context_budget(self.request.max_context_size);
        let cap = context::compute_effective_max_block_chars(
            self.request.max_block_chars,
            &budget,
        );
        let (blocks, references) = context::assemble_context_blocks(ordered, &budget, cap);
        let search_stats = RetrievalSearchStats {
            search_mode: search.mode.as_str(),
            vector_hits: search.vector_hits,
            token_hits: search.token_hits,
            graph_hits: search.graph_hits,
        };
        respond(
            project_id,
            &self.request,
            blocks,
            references,
            Ghost(found_context(self, hits)),
            stats,
            Some(search_stats),
        )
    }
}

/// Whatever the search engine finds, a request with an allowlist is answered with blocks from
/// the paths that it names, numbered from one, whose contents fit into the budget.
pub proof fn answer_keeps_to_allowlist(
    s: ChatSearch,
    allowed: TextSet,
    hits: Seq<search::ProjectSearchResult>,
    k: int,
)
    requires
        s.allowed == Some(allowed),
        0 <= k < found_context(s, hits).len(),
    ensures
        ({
            let p = found_context(s, hits)[k];
            &&& scope::source_path(p.hit.path@) matches Ok(path) && allowed@.contains(path)
            &&& p.id == k + 1
        }),
        context::total_chars(found_context(s, hits)) <= context::budget_for(
            s.request.max_context_size,
        ).page_budget,
{
    let budget = context::budget_for(s.request.max_context_size);
    let cap = cap_of(s.request);
    let ordered = context::context_order(s.mode, context::filtered(hits, Some(allowed@)));
    context::context_keeps_to_allowlist(s.mode, hits, allowed@, budget, cap, k);
    context::context_is_numbered(ordered, 1, 0, budget, cap);
    context::budget_is_bounded(s.request.max_context_size);
    context::context_fits_budget(ordered, 1, 0, budget, cap);
}

/// Under an allowlist that was checked against a file system, every block of an answer comes from
/// a regular file in the project that one of the allowed paths leads to, through no symbolic link.
pub proof fn answer_comes_from_real_files(
    fs: scope_check::FileSystem,
    root: Seq<u8>,
    paths: Seq<Seq<char>>,
    s: ChatSearch,
    allowed: TextSet,
    hits: Seq<search::ProjectSearchResult>,
    k: int,
)
    requires
        scope_check::found_good(fs, root, paths) == Ok::<Set<Seq<char>>, Seq<char>>(allowed@),
        s.allowed == Some(allowed),
        0 <= k < found_context(s, hits).len(),
    ensures
        scope::source_path(found_context(s, hits)[k].hit.path@) matches Ok(path) && exists|i: int|
            0 <= i < paths.len() && scope_check::leads_to(fs, root, #[trigger] paths[i], path),
{
    answer_keeps_to_allowlist(s, allowed, hits, k);
    let path = scope::source_path(found_context(s, hits)[k].hit.path@)->Ok_0;
    scope_check::scope_holds_real_files(fs, root, paths, path);
}

/// Where the search engine finds nothing that an allowlist names, the answer is the empty
/// context, and not what was found elsewhere.
pub proof fn unmatched_allowlist_is_answered_empty(
    project_id: Seq<char>,
    s: ChatSearch,
    allowed: TextSet,
    search: ProjectSearchResponse,
)
    requires
        s.allowed == Some(allowed),
        forall|i: int|
            0 <= i < search.results@.len() ==> !context::is_allowed(allowed@)(
                #[trigger] search.results@[i],
            ),
    ensures
        found_context(s, search.results@).len() == 0,
        chat_answer(project_id, s, Ok(search)).status == 200,
        chat_answer(project_id, s, Ok(search)).body->Object_0[1] == (
            "status"@,
            JsonModel::Text("EMPTY_CONTEXT"@),
        ),
{
    context::unmatched_allowlist_leaves_nothing(
        s.mode,
        search.results@,
        allowed@,
        context::budget_for(s.request.max_context_size),
        cap_of(s.request),
    );
}

/// The characters of a conversation are counted message by message, over the contents alone; a
/// number beyond the largest counts as the largest.
pub proof fn history_is_counted(
    a: Seq<ChatHistoryMessage>,
    b: Seq<ChatHistoryMessage>,
    message: ChatHistoryMessage,
    n: nat,
)
    ensures
        history_chars(a + b) == history_chars(a) + history_chars(b),
        history_chars(seq![message]) == message.content@.len(),
        n <= usize::MAX ==> saturated(n) == n,
        n > usize::MAX ==> saturated(n) == usize::MAX,
    decreases b.len(),
{
    assert(seq![message].drop_last() =~= Seq::empty());
    assert(history_chars(seq![message].drop_last()) == 0);
    if b.len() == 0 {
        assert(a + b =~= a);
    } else {
        history_is_counted(a, b.drop_last(), message, n);
        assert((a + b).drop_last() =~= a + b.drop_last());
    }
}

/// Unless it is asked for more, a request is told the mode of a retrieval and what the allowlist did,
/// in numbers, and nothing else.
pub proof fn brief_report_is_told(request: ChatContextRequest, mode: Seq<char>, roots: Seq<Seq<char>>, n: nat, cap: Option<usize>, stats: SourceFilterStats, search_stats: Option<SearchStats>)
    requires
        !request.include_debug,
    ensures
        ({
            let value = debug_model(request, mode, roots, n, cap, stats, search_stats);
            &&& value->Object_0.len() == 4
            &&& value.field("retrieval_mode"@) == Some(JsonModel::Text(mode))
            &&& value.field("source_filter_active"@) == Some(JsonModel::Bool(stats.active))
            &&& value.field("source_filter_allowed_count"@) == Some(
                JsonModel::UInt(stats.allowed_count as nat),
            )
            &&& value.field("source_filter_matched_count"@) == Some(
                JsonModel::UInt(stats.matched_count as nat),
            )
        }),
{
    reveal_strlit("retrieval_mode");
    reveal_strlit("source_filter_active");
    reveal_strlit("source_filter_allowed_count");
    reveal_strlit("source_filter_matched_count");
    assert("retrieval_mode"@.len() == 14);
    assert("source_filter_active"@.len() == 20);
    assert("source_filter_allowed_count"@.len() == 27);
    assert("source_filter_matched_count"@.len() == 27);
    assert("source_filter_allowed_count"@[14] == 'a');
    assert("source_filter_matched_count"@[14] == 'm');
    let fields = (debug_model(request, mode, roots, n, cap, stats, search_stats))->Object_0;
    assert(fields[0] == ("retrieval_mode"@, JsonModel::Text(mode)));
    assert(fields[1] == ("source_filter_active"@, JsonModel::Bool(stats.active)));
    assert(fields[2] == (
        "source_filter_allowed_count"@,
        JsonModel::UInt(stats.allowed_count as nat),
    ));
    assert(fields[3] == (
        "source_filter_matched_count"@,
        JsonModel::UInt(stats.matched_count as nat),
    ));
    json::each_field_is_read(fields);
}

/// On request a retrieval is told in full: how it was asked for, what was searched, and what the
/// allowlist did.
#[verifier::spinoff_prover]
#[verifier::rlimit(60)]
pub proof fn full_report_is_told(request: ChatContextRequest, mode: Seq<char>, roots: Seq<Seq<char>>, n: nat, cap: Option<usize>, stats: SourceFilterStats, search_stats: Option<SearchStats>)
    requires
        request.include_debug,
        search_stats is None,
    ensures
        ({
            let value = debug_model(request, mode, roots, n, cap, stats, search_stats);
            &&& value->Object_0.len() == 17
            &&& value.field("retrieval_mode"@) == Some(JsonModel::Text(mode))
            &&& value.field("scan_roots"@) == Some(json::texts_model(roots))
            &&& value.field("result_count"@) == Some(JsonModel::UInt(n))
            &&& value.field("include_debug"@) == Some(JsonModel::Bool(true))
            &&& value.field("mode"@) == Some(JsonModel::Text("server-only"@))
            &&& value.field("history_message_count"@) == Some(
                JsonModel::UInt(request.history@.len()),
            )
            &&& value.field("history_content_chars"@) == Some(
                JsonModel::UInt(saturated(history_chars(request.history@))),
            )
            &&& value.field("requested_top_k"@) == Some(
                JsonModel::UInt(search::hits_asked(request.top_k) as nat),
            )
            &&& value.field("requested_max_context_size"@) == Some(
                json::optional_size_model(request.max_context_size),
            )
            &&& value.field("effective_max_context_size"@) == Some(
                JsonModel::UInt(context::budget_for(request.max_context_size).max_ctx as nat),
            )
            &&& value.field("requested_max_block_chars"@) == Some(
                json::optional_size_model(request.max_block_chars),
            )
            &&& value.field("effective_max_block_chars"@) == Some(json::optional_size_model(cap))
            &&& value.field("source_filter_active"@) == Some(JsonModel::Bool(stats.active))
            &&& value.field("source_filter_allowed_count"@) == Some(
                JsonModel::UInt(stats.allowed_count as nat),
            )
            &&& value.field("source_filter_candidate_count"@) == Some(
                JsonModel::UInt(stats.candidate_count as nat),
            )
            &&& value.field("source_filter_matched_count"@) == Some(
                JsonModel::UInt(stats.matched_count as nat),
            )
            &&& value.field("source_filter_excluded_count"@) == Some(
                JsonModel::UInt(if stats.candidate_count > stats.matched_count {
                        (stats.candidate_count - stats.matched_count) as nat
                    } else {
                        0
                    }),
            )
        }),
{
    reveal_strlit("retrieval_mode");
    reveal_strlit("scan_roots");
    reveal_strlit("result_count");
    reveal_strlit("include_debug");
    reveal_strlit("mode");
    reveal_strlit("history_message_count");
    reveal_strlit("history_content_chars");
    reveal_strlit("requested_top_k");
    reveal_strlit("requested_max_context_size");
    reveal_strlit("effective_max_context_size");
    reveal_strlit("requested_max_block_chars");
    reveal_strlit("effective_max_block_chars");
    reveal_strlit("source_filter_active");
    reveal_strlit("source_filter_allowed_count");
    reveal_strlit("source_filter_candidate_count");
    reveal_strlit("source_filter_matched_count");
    reveal_strlit("source_filter_excluded_count");
    assert("retrieval_mode"@.len() == 14);
    assert("scan_roots"@.len() == 10);
    assert("result_count"@.len() == 12);
    assert("include_debug"@.len() == 13);
    assert("mode"@.len() == 4);
    assert("history_message_count"@.len() == 21);
    assert("history_content_chars"@.len() == 21);
    assert("requested_top_k"@.len() == 15);
    assert("requested_max_context_size"@.len() == 26);
    assert("effective_max_context_size"@.len() == 26);
    assert("requested_max_block_chars"@.len() == 25);
    assert("effective_max_block_chars"@.len() == 25);
    assert("source_filter_active"@.len() == 20);
    assert("source_filter_allowed_count"@.len() == 27);
    assert("source_filter_candidate_count"@.len() == 29);
    assert("source_filter_matched_count"@.len() == 27);
    assert("source_filter_excluded_count"@.len() == 28);
    assert("history_message_count"@[8] == 'm');
    assert("history_content_chars"@[8] == 'c');
    assert("requested_max_context_size"@[0] == 'r');
    assert("effective_max_context_size"@[0] == 'e');
    assert("requested_max_block_chars"@[0] == 'r');
    assert("effective_max_block_chars"@[0] == 'e');
    assert("source_filter_allowed_count"@[14] == 'a');
    assert("source_filter_matched_count"@[14] == 'm');
    let fields = (debug_model(request, mode, roots, n, cap, stats, search_stats))->Object_0;
    assert(fields[0] == ("retrieval_mode"@, JsonModel::Text(mode)));
    assert(fields[1] == ("scan_roots"@, json::texts_model(roots)));
    assert(fields[2] == ("result_count"@, JsonModel::UInt(n)));
    assert(fields[3] == ("include_debug"@, JsonModel::Bool(true)));
    assert(fields[4] == ("mode"@, JsonModel::Text("server-only"@)));
    assert(fields[5] == ("history_message_count"@, JsonModel::UInt(request.history@.len())));
    assert(fields[6] == (
        "history_content_chars"@,
        JsonModel::UInt(saturated(history_chars(request.history@))),
    ));
    assert(fields[7] == (
        "requested_top_k"@,
        JsonModel::UInt(search::hits_asked(request.top_k) as nat),
    ));
    assert(fields[8] == (
        "requested_max_context_size"@,
        json::optional_size_model(request.max_context_size),
    ));
    assert(fields[9] == (
        "effective_max_context_size"@,
        JsonModel::UInt(context::budget_for(request.max_context_size).max_ctx as nat),
    ));
    assert(fields[10] == (
        "requested_max_block_chars"@,
        json::optional_size_model(request.max_block_chars),
    ));
    assert(fields[11] == ("effective_max_block_chars"@, json::optional_size_model(cap)));
    assert(fields[12] == ("source_filter_active"@, JsonModel::Bool(stats.active)));
    assert(fields[13] == (
        "source_filter_allowed_count"@,
        JsonModel::UInt(stats.allowed_count as nat),
    ));
    assert(fields[14] == (
        "source_filter_candidate_count"@,
        JsonModel::UInt(stats.candidate_count as nat),
    ));
    assert(fields[15] == (
        "source_filter_matched_count"@,
        JsonModel::UInt(stats.matched_count as nat),
    ));
    assert(fields[16] == (
        "source_filter_excluded_count"@,
        JsonModel::UInt(if stats.candidate_count > stats.matched_count {
                        (stats.candidate_count - stats.matched_count) as nat
                    } else {
                        0
                    }),
    ));
    json::each_field_is_read(fields);
}

/// On request a retrieval that searched is told in full, with the mode and the counts of the search.
#[verifier::spinoff_prover]
#[verifier::rlimit(80)]
pub proof fn search_is_reported(request: ChatContextRequest, mode: Seq<char>, roots: Seq<Seq<char>>, n: nat, cap: Option<usize>, stats: SourceFilterStats, search_stats: Option<SearchStats>)
    requires
        request.include_debug,
        search_stats is Some,
    ensures
        ({
            let value = debug_model(request, mode, roots, n, cap, stats, search_stats);
            &&& value->Object_0.len() == 21
            &&& value.field("retrieval_mode"@) == Some(JsonModel::Text(mode))
            &&& value.field("scan_roots"@) == Some(json::texts_model(roots))
            &&& value.field("result_count"@) == Some(JsonModel::UInt(n))
            &&& value.field("include_debug"@) == Some(JsonModel::Bool(true))
            &&& value.field("mode"@) == Some(JsonModel::Text("server-only"@))
            &&& value.field("history_message_count"@) == Some(
                JsonModel::UInt(request.history@.len()),
            )
            &&& value.field("history_content_chars"@) == Some(
                JsonModel::UInt(saturated(history_chars(request.history@))),
            )
            &&& value.field("requested_top_k"@) == Some(
                JsonModel::UInt(search::hits_asked(request.top_k) as nat),
            )
            &&& value.field("requested_max_context_size"@) == Some(
                json::optional_size_model(request.max_context_size),
            )
            &&& value.field("effective_max_context_size"@) == Some(
                JsonModel::UInt(context::budget_for(request.max_context_size).max_ctx as nat),
            )
            &&& value.field("requested_max_block_chars"@) == Some(
                json::optional_size_model(request.max_block_chars),
            )
            &&& value.field("effective_max_block_chars"@) == Some(json::optional_size_model(cap))
            &&& value.field("source_filter_active"@) == Some(JsonModel::Bool(stats.active))
            &&& value.field("source_filter_allowed_count"@) == Some(
                JsonModel::UInt(stats.allowed_count as nat),
            )
            &&& value.field("source_filter_candidate_count"@) == Some(
                JsonModel::UInt(stats.candidate_count as nat),
            )
            &&& value.field("source_filter_matched_count"@) == Some(
                JsonModel::UInt(stats.matched_count as nat),
            )
            &&& value.field("source_filter_excluded_count"@) == Some(
                JsonModel::UInt(if stats.candidate_count > stats.matched_count {
                        (stats.candidate_count - stats.matched_count) as nat
                    } else {
                        0
                    }),
            )
            &&& value.field("search_mode"@) == Some(JsonModel::Text(search_stats->0.search_mode))
            &&& value.field("vector_hits"@) == Some(
                JsonModel::UInt(search_stats->0.vector_hits as nat),
            )
            &&& value.field("token_hits"@) == Some(
                JsonModel::UInt(search_stats->0.token_hits as nat),
            )
            &&& value.field("graph_hits"@) == Some(
                JsonModel::UInt(search_stats->0.graph_hits as nat),
            )
        }),
{
    reveal_strlit("retrieval_mode");
    reveal_strlit("scan_roots");
    reveal_strlit("result_count");
    reveal_strlit("include_debug");
    reveal_strlit("mode");
    reveal_strlit("history_message_count");
    reveal_strlit("history_content_chars");
    reveal_strlit("requested_top_k");
    reveal_strlit("requested_max_context_size");
    reveal_strlit("effective_max_context_size");
    reveal_strlit("requested_max_block_chars");
    reveal_strlit("effective_max_block_chars");
    reveal_strlit("source_filter_active");
    reveal_strlit("source_filter_allowed_count");
    reveal_strlit("source_filter_candidate_count");
    reveal_strlit("source_filter_matched_count");
    reveal_strlit("source_filter_excluded_count");
    reveal_strlit("search_mode");
    reveal_strlit("vector_hits");
    reveal_strlit("token_hits");
    reveal_strlit("graph_hits");
    assert("retrieval_mode"@.len() == 14);
    assert("scan_roots"@.len() == 10);
    assert("result_count"@.len() == 12);
    assert("include_debug"@.len() == 13);
    assert("mode"@.len() == 4);
    assert("history_message_count"@.len() == 21);
    assert("history_content_chars"@.len() == 21);
    assert("requested_top_k"@.len() == 15);
    assert("requested_max_context_size"@.len() == 26);
    assert("effective_max_context_size"@.len() == 26);
    assert("requested_max_block_chars"@.len() == 25);
    assert("effective_max_block_chars"@.len() == 25);
    assert("source_filter_active"@.len() == 20);
    assert("source_filter_allowed_count"@.len() == 27);
    assert("source_filter_candidate_count"@.len() == 29);
    assert("source_filter_matched_count"@.len() == 27);
    assert("source_filter_excluded_count"@.len() == 28);
    assert("search_mode"@.len() == 11);
    assert("vector_hits"@.len() == 11 && "token_hits"@.len() == 10 && "graph_hits"@.len() == 10);
    assert("scan_roots"@[0] == 's' && "token_hits"@[0] == 't' && "graph_hits"@[0] == 'g');
    assert("history_message_count"@[8] == 'm');
    assert("history_content_chars"@[8] == 'c');
    assert("requested_max_context_size"@[0] == 'r');
    assert("effective_max_context_size"@[0] == 'e');
    assert("requested_max_block_chars"@[0] == 'r');
    assert("effective_max_block_chars"@[0] == 'e');
    assert("source_filter_allowed_count"@[14] == 'a');
    assert("source_filter_matched_count"@[14] == 'm');
    assert("search_mode"@[0] == 's');
    assert("vector_hits"@[0] == 'v');
    let fields = (debug_model(request, mode, roots, n, cap, stats, search_stats))->Object_0;
    assert(fields[0] == ("retrieval_mode"@, JsonModel::Text(mode)));
    assert(fields[1] == ("scan_roots"@, json::texts_model(roots)));
    assert(fields[2] == ("result_count"@, JsonModel::UInt(n)));
    assert(fields[3] == ("include_debug"@, JsonModel::Bool(true)));
    assert(fields[4] == ("mode"@, JsonModel::Text("server-only"@)));
    assert(fields[5] == ("history_message_count"@, JsonModel::UInt(request.history@.len())));
    assert(fields[6] == (
        "history_content_chars"@,
        JsonModel::UInt(saturated(history_chars(request.history@))),
    ));
    assert(fields[7] == (
        "requested_top_k"@,
        JsonModel::UInt(search::hits_asked(request.top_k) as nat),
    ));
    assert(fields[8] == (
        "requested_max_context_size"@,
        json::optional_size_model(request.max_context_size),
    ));
    assert(fields[9] == (
        "effective_max_context_size"@,
        JsonModel::UInt(context::budget_for(request.max_context_size).max_ctx as nat),
    ));
    assert(fields[10] == (
        "requested_max_block_chars"@,
        json::optional_size_model(request.max_block_chars),
    ));
    assert(fields[11] == ("effective_max_block_chars"@, json::optional_size_model(cap)));
    assert(fields[12] == ("source_filter_active"@, JsonModel::Bool(stats.active)));
    assert(fields[13] == (
        "source_filter_allowed_count"@,
        JsonModel::UInt(stats.allowed_count as nat),
    ));
    assert(fields[14] == (
        "source_filter_candidate_count"@,
        JsonModel::UInt(stats.candidate_count as nat),
    ));
    assert(fields[15] == (
        "source_filter_matched_count"@,
        JsonModel::UInt(stats.matched_count as nat),
    ));
    assert(fields[16] == (
        "source_filter_excluded_count"@,
        JsonModel::UInt(if stats.candidate_count > stats.matched_count {
                        (stats.candidate_count - stats.matched_count) as nat
                    } else {
                        0
                    }),
    ));
    assert(fields[17] == ("search_mode"@, JsonModel::Text(search_stats->0.search_mode)));
    assert(fields[18] == ("vector_hits"@, JsonModel::UInt(search_stats->0.vector_hits as nat)));
    assert(fields[19] == ("token_hits"@, JsonModel::UInt(search_stats->0.token_hits as nat)));
    assert(fields[20] == ("graph_hits"@, JsonModel::UInt(search_stats->0.graph_hits as nat)));
    json::each_field_is_read(fields);
}

/// The budget is told with each of its parts.
pub proof fn budget_is_told(budget: ContextBudget, cap: Option<usize>)
    ensures
        ({
            let value = budget_model(budget, cap);
            &&& value->Object_0.len() == 6
            &&& value.field("max_ctx"@) == Some(JsonModel::UInt(budget.max_ctx as nat))
            &&& value.field("response_reserve"@) == Some(
                JsonModel::UInt(budget.response_reserve as nat),
            )
            &&& value.field("index_budget"@) == Some(JsonModel::UInt(budget.index_budget as nat))
            &&& value.field("page_budget"@) == Some(JsonModel::UInt(budget.page_budget as nat))
            &&& value.field("max_page_size"@) == Some(JsonModel::UInt(budget.max_page_size as nat))
            &&& value.field("max_block_chars"@) == Some(json::optional_size_model(cap))
        }),
{
    reveal_strlit("max_ctx");
    reveal_strlit("response_reserve");
    reveal_strlit("index_budget");
    reveal_strlit("page_budget");
    reveal_strlit("max_page_size");
    reveal_strlit("max_block_chars");
    assert("max_ctx"@.len() == 7 && "response_reserve"@.len() == 16 && "index_budget"@.len() == 12);
    assert("page_budget"@.len() == 11);
    assert("max_page_size"@.len() == 13);
    assert("max_block_chars"@.len() == 15);
    let fields = (budget_model(budget, cap))->Object_0;
    assert(fields[0] == ("max_ctx"@, JsonModel::UInt(budget.max_ctx as nat)));
    assert(fields[1] == ("response_reserve"@, JsonModel::UInt(budget.response_reserve as nat)));
    assert(fields[2] == ("index_budget"@, JsonModel::UInt(budget.index_budget as nat)));
    assert(fields[3] == ("page_budget"@, JsonModel::UInt(budget.page_budget as nat)));
    assert(fields[4] == ("max_page_size"@, JsonModel::UInt(budget.max_page_size as nat)));
    assert(fields[5] == ("max_block_chars"@, json::optional_size_model(cap)));
    json::each_field_is_read(fields);
}

/// A request is answered with its query, the blocks of its context and a reference for each, the
/// budget, and what is told of the retrieval. A context without a block is called empty.
pub proof fn context_is_answered(project_id: Seq<char>, request: ChatContextRequest, found: Seq<Packed>, stats: SourceFilterStats, search_stats: Option<SearchStats>)
    ensures
        ({
            let value = chat_response(project_id, request, found, stats, search_stats).body;
            &&& value->Object_0.len() == 8
            &&& value.field("ok"@) == Some(JsonModel::Bool(true))
            &&& value.field("status"@) == Some(
                JsonModel::Text(if found.len() == 0 {
                        "EMPTY_CONTEXT"@
                    } else {
                        "SUCCESS"@
                    }),
            )
            &&& value.field("project_id"@) == Some(JsonModel::Text(project_id))
            &&& value.field("query"@) == Some(JsonModel::Text(request.query@))
            &&& value.field("context_blocks"@) == Some(
                JsonModel::Array(context::block_models(found)),
            )
            &&& value.field("references"@) == Some(
                JsonModel::Array(context::reference_models(found)),
            )
            &&& value.field("budget"@) == Some(
                budget_model(context::budget_for(request.max_context_size), cap_of(request)),
            )
            &&& value.field("retrieval_debug"@) == Some(
                debug_model(
                    request,
                    mode::label(mode_of(request)),
                    mode::mode_roots(mode_of(request)),
                    found.len(),
                    cap_of(request),
                    stats,
                    search_stats,
                ),
            )
        }),
        chat_response(project_id, request, found, stats, search_stats).status == 200,
{
    reveal_strlit("ok");
    reveal_strlit("status");
    reveal_strlit("project_id");
    reveal_strlit("query");
    reveal_strlit("context_blocks");
    reveal_strlit("references");
    reveal_strlit("budget");
    reveal_strlit("retrieval_debug");
    assert("ok"@.len() == 2 && "status"@.len() == 6 && "project_id"@.len() == 10);
    assert("query"@.len() == 5 && "context_blocks"@.len() == 14 && "references"@.len() == 10);
    assert("budget"@.len() == 6 && "retrieval_debug"@.len() == 15 && "status"@[0] == 's');
    assert("budget"@[0] == 'b' && "project_id"@[0] == 'p' && "references"@[0] == 'r');
    let fields = (chat_response(project_id, request, found, stats, search_stats).body)->Object_0;
    assert(fields[0] == ("ok"@, JsonModel::Bool(true)));
    assert(fields[1] == (
        "status"@,
        JsonModel::Text(if found.len() == 0 {
                        "EMPTY_CONTEXT"@
                    } else {
                        "SUCCESS"@
                    }),
    ));
    assert(fields[2] == ("project_id"@, JsonModel::Text(project_id)));
    assert(fields[3] == ("query"@, JsonModel::Text(request.query@)));
    assert(fields[4] == ("context_blocks"@, JsonModel::Array(context::block_models(found))));
    assert(fields[5] == ("references"@, JsonModel::Array(context::reference_models(found))));
    assert(fields[6] == (
        "budget"@,
        budget_model(context::budget_for(request.max_context_size), cap_of(request)),
    ));
    assert(fields[7] == (
        "retrieval_debug"@,
        debug_model(
                    request,
                    mode::label(mode_of(request)),
                    mode::mode_roots(mode_of(request)),
                    found.len(),
                    cap_of(request),
                    stats,
                    search_stats,
                ),
    ));
    json::each_field_is_read(fields);
}

/// Blocks and references are answered as they are given, with the query and the budget of their
/// request.
pub proof fn blocks_are_answered(ctx: ChatContextResponseContext, blocks: Seq<JsonModel>, references: Seq<JsonModel>, stats: SourceFilterStats, search_stats: Option<SearchStats>)
    ensures
        ({
            let value = context_response(ctx, blocks, references, stats, search_stats).body;
            &&& value->Object_0.len() == 8
            &&& value.field("ok"@) == Some(JsonModel::Bool(true))
            &&& value.field("status"@) == Some(
                JsonModel::Text(if blocks.len() == 0 {
                        "EMPTY_CONTEXT"@
                    } else {
                        "SUCCESS"@
                    }),
            )
            &&& value.field("project_id"@) == Some(JsonModel::Text(ctx.project_id@))
            &&& value.field("query"@) == Some(JsonModel::Text(ctx.request.query@))
            &&& value.field("context_blocks"@) == Some(JsonModel::Array(blocks))
            &&& value.field("references"@) == Some(JsonModel::Array(references))
            &&& value.field("budget"@) == Some(
                budget_model(*ctx.budget, ctx.effective_max_block_chars),
            )
            &&& value.field("retrieval_debug"@) == Some(
                debug_model(
                    *ctx.request,
                    ctx.mode_label@,
                    text::views(ctx.mode_scan_roots@),
                    blocks.len(),
                    ctx.effective_max_block_chars,
                    stats,
                    search_stats,
                ),
            )
        }),
        context_response(ctx, blocks, references, stats, search_stats).status == 200,
{
    reveal_strlit("ok");
    reveal_strlit("status");
    reveal_strlit("project_id");
    reveal_strlit("query");
    reveal_strlit("context_blocks");
    reveal_strlit("references");
    reveal_strlit("budget");
    reveal_strlit("retrieval_debug");
    assert("ok"@.len() == 2 && "status"@.len() == 6 && "project_id"@.len() == 10);
    assert("query"@.len() == 5 && "context_blocks"@.len() == 14 && "references"@.len() == 10);
    assert("budget"@.len() == 6 && "retrieval_debug"@.len() == 15 && "status"@[0] == 's');
    assert("budget"@[0] == 'b' && "project_id"@[0] == 'p' && "references"@[0] == 'r');
    let fields = (context_response(ctx, blocks, references, stats, search_stats).body)->Object_0;
    assert(fields[0] == ("ok"@, JsonModel::Bool(true)));
    assert(fields[1] == (
        "status"@,
        JsonModel::Text(if blocks.len() == 0 {
                        "EMPTY_CONTEXT"@
                    } else {
                        "SUCCESS"@
                    }),
    ));
    assert(fields[2] == ("project_id"@, JsonModel::Text(ctx.project_id@)));
    assert(fields[3] == ("query"@, JsonModel::Text(ctx.request.query@)));
    assert(fields[4] == ("context_blocks"@, JsonModel::Array(blocks)));
    assert(fields[5] == ("references"@, JsonModel::Array(references)));
    assert(fields[6] == ("budget"@, budget_model(*ctx.budget, ctx.effective_max_block_chars)));
    assert(fields[7] == (
        "retrieval_debug"@,
        debug_model(
                    *ctx.request,
                    ctx.mode_label@,
                    text::views(ctx.mode_scan_roots@),
                    blocks.len(),
                    ctx.effective_max_block_chars,
                    stats,
                    search_stats,
                ),
    ));
    json::each_field_is_read(fields);
}

/// A request for context is taken up if its project is known, its query is not blank, its cap is
/// not zero, and its allowlist can be accepted; otherwise it is told the first of these that fails.
pub proof fn context_requests_are_judged(
    project: ProjectEntry,
    request: ChatContextRequest,
    message: String,
)
    ensures
        refusal(Err(message), Ok(request)) matches Some(answer) && response::tells_error(
            answer,
            404,
            "PROJECT_NOT_FOUND"@,
            message@,
        ),
        refusal(Ok(project), Err(message)) matches Some(answer) && response::tells_error(
            answer,
            400,
            "INVALID_JSON"@,
            "Request body must be valid JSON: "@ + message@,
        ),
        ({
            let judged = refusal(Ok(project), Ok(request));
            let blank = text::trim(request.query@).len() == 0;
            let uncapped = request.max_block_chars != Some(0usize);
            let allowed = scope::allowlist(requested_paths(request));
            &&& judged is None <==> !blank && uncapped && allowed is Ok
            &&& blank ==> response::tells_error(
                judged->0,
                400,
                "INVALID_QUERY"@,
                "query must not be empty"@,
            )
            &&& !blank && !uncapped ==> response::tells_error(
                judged->0,
                400,
                "INVALID_MAX_BLOCK_CHARS"@,
                "max_block_chars must be greater than zero"@,
            )
            &&& !blank && uncapped && allowed is Err ==> response::tells_error(
                judged->0,
                400,
                "INVALID_ALLOWED_SOURCE_PATHS"@,
                allowed->Err_0,
            )
        }),
        request.allowed_source_paths is None ==> requested_paths(request) is None,
        request.allowed_source_paths matches Some(paths) ==> requested_paths(request) == Some(
            text::views(paths@),
        ),
{
    response::errors_are_told(404, "PROJECT_NOT_FOUND"@, message@);
    response::errors_are_told(
        400,
        "INVALID_JSON"@,
        "Request body must be valid JSON: "@ + message@,
    );
    response::errors_are_told(400, "INVALID_QUERY"@, "query must not be empty"@);
    response::errors_are_told(
        400,
        "INVALID_MAX_BLOCK_CHARS"@,
        "max_block_chars must be greater than zero"@,
    );
    if scope::allowlist(requested_paths(request)) is Err {
        response::errors_are_told(
            400,
            "INVALID_ALLOWED_SOURCE_PATHS"@,
            scope::allowlist(requested_paths(request))->Err_0,
        );
    }
}

/// The kind of an error is read from the words in its first 4096 characters, in letters of either
/// case: the first kind of which it holds a word. The log names the kind and nothing else of it.
pub proof fn error_kind_is_read(e: Seq<char>)
    ensures
        ({
            let seen = text::ascii_lower(
                if e.len() > 4096 {
                    e.take(4096)
                } else {
                    e
                },
            );
            let kind = error_category(e);
            let provider = text::contains(seen, "embedding"@) || text::contains(
                seen,
                "provider"@,
            );
            let store = text::contains(seen, "vector"@) || text::contains(seen, "lance"@);
            let io = text::contains(seen, "scan"@) || text::contains(seen, "file"@)
                || text::contains(seen, "path"@) || text::contains(seen, "permission"@);
            &&& provider ==> kind == "provider_or_embedding"@
            &&& !provider && store ==> kind == "vector_store"@
            &&& !provider && !store && io ==> kind == "project_io"@
            &&& !provider && !store && !io ==> kind == "internal"@
            &&& log_line(kind)
                == "[OmniMind Server] chat-context retrieval failed code=RETRIEVAL_FAILED category="@
                + kind
        }),
        response::tells_error(
            retrieval_failed(),
            502,
            "RETRIEVAL_FAILED"@,
            "Knowledge retrieval failed"@,
        ),
{
    response::errors_are_told(502, "RETRIEVAL_FAILED"@, "Knowledge retrieval failed"@);
}

/// Every block of an answer is made from a hit of the search. Without an allowlist, and in any mode
/// but the hybrid one, the blocks are made from the first hits in the order of the search; without
/// a cap each has the whole text of its hit, unless the first alone exceeds what the pages have.
pub proof fn answer_comes_from_hits(
    s: ChatSearch,
    hits: Seq<search::ProjectSearchResult>,
    k: int,
)
    requires
        0 <= k < found_context(s, hits).len(),
    ensures
        ({
            let found = found_context(s, hits);
            let budget = context::budget_for(s.request.max_context_size);
            &&& hits.contains(found[k].hit)
            &&& found[k].id == k + 1
            &&& s.allowed is None && s.mode != RetrievalMode::Hybrid ==> found[k].hit == hits[k]
            &&& s.allowed is None && s.mode != RetrievalMode::Hybrid && s.request.max_block_chars
                is None && context::block_chars(1, hits[0].title@, context::content_of(hits[0]))
                <= budget.page_budget ==> found[k].content == context::content_of(hits[k])
            &&& s.request.max_block_chars matches Some(most) ==> found[k].content.len() <= most
        }),
{
    broadcast use vstd::seq_lib::group_to_multiset_ensures;

    let allowed = scope::optional_set(s.allowed);
    let kept = context::filtered(hits, allowed);
    let ordered = context::context_order(s.mode, kept);
    let budget = context::budget_for(s.request.max_context_size);
    let cap = cap_of(s.request);
    context::context_is_numbered(ordered, 1, 0, budget, cap);
    context::budget_is_bounded(s.request.max_context_size);
    context::context_fits_budget(ordered, 1, 0, budget, cap);
    context::order_keeps_hits(s.mode, kept);
    assert(ordered.contains(ordered[k]));
    assert(ordered.to_multiset().count(ordered[k]) > 0);
    assert(kept.contains(ordered[k]));
    let i = kept.index_of(ordered[k]);
    assert(kept[i] == ordered[k]);
    match allowed {
        Some(set) => {
            context::filter_keeps_to_allowlist(hits, set, i);
        },
        None => {},
    }
    if s.allowed is None && s.mode != RetrievalMode::Hybrid {
        assert(ordered == hits);
        if s.request.max_block_chars is None {
            context::pages_stand_whole(hits, budget);
        }
    }
}

/// The mode and the cap of a request are the ones that it asks for, and a search is that of its
/// request, in the scope that was checked.
pub proof fn search_is_as_asked(
    s: ChatSearch,
    request: ChatContextRequest,
    scope: ValidatedSourceFileScope,
)
    ensures
        request.retrieval_mode is None ==> mode_of(request) == RetrievalMode::Wiki,
        request.retrieval_mode matches Some(name) ==> mode_of(request) == mode::requested_mode(
            Some(name@),
        ),
        request.max_block_chars is None ==> cap_of(request) is None,
        request.max_block_chars matches Some(n) && n <= context::budget_for(
            request.max_context_size,
        ).page_budget ==> cap_of(request) == request.max_block_chars,
        is_search_of(s, request, scope) ==> s.request == request && s.mode == mode_of(request)
            && s.project_root == scope.project_root && s.allowed == scope.allowed_paths && s.top_k
            == search::hits_asked(request.top_k),
        is_search_of(s, request, scope) && scope.allowed_paths is None ==> text::views(
            s.scan_roots@,
        ) == mode::mode_roots(mode_of(request)),
        is_search_of(s, request, scope) ==> (scope.allowed_paths matches Some(set) ==> text::views(
            s.scan_roots@,
        ) == scope::scan_roots(mode_of(request), Some(set.texts()))),
{
}

/// Where nothing was searched the counts say so: the filter is active, and nothing was found.
pub proof fn nothing_searched_is_counted(allowed: Set<Seq<char>>)
    requires
        allowed.len() <= usize::MAX,
    ensures
        ({
            let stats = nothing_searched(Some(allowed));
            stats.active && stats.allowed_count == allowed.len() && stats.candidate_count == 0
                && stats.matched_count == 0
        }),
{
}

/// What the search engine answered is answered with the context that its hits make, the counts of
/// the filter and those of the search; a search that failed is answered without a word of why.
pub proof fn search_is_answered(
    project_id: Seq<char>,
    s: ChatSearch,
    search: ProjectSearchResponse,
    cause: String,
)
    ensures
        chat_answer(project_id, s, Err(cause)) == retrieval_failed(),
        chat_answer(project_id, s, Ok(search)) == chat_response(
            project_id,
            s.request,
            found_context(s, search.results@),
            context::filter_stats(search.results@, scope::optional_set(s.allowed)),
            Some(
                SearchStats {
                    search_mode: search.mode@,
                    vector_hits: search.vector_hits,
                    token_hits: search.token_hits,
                    graph_hits: search.graph_hits,
                },
            ),
        ),
{
}

/// The paths of an allowlist are checked in ascending order, all of them; without an allowlist
/// there are none.
pub proof fn checked_paths_are_sorted(allowed: Set<Seq<char>>, set: TextSet)
    requires
        allowed.finite(),
    ensures
        sorted_paths(Some(allowed)) matches Some(paths) && order::ascending(paths)
            && paths.to_set() == allowed,
        sorted_paths(None) is None,
        texts_of(Some(set)) == Some(set.texts()),
        texts_of(None) is None,
{
    order::sorted_of_finite(allowed);
}

} // verus!

//! The context of a chat: search hits, filtered, ordered and packed into a budget of characters.
use crate::json;
use crate::json::{Fields, Json, JsonModel};
use crate::mode::RetrievalMode;
use crate::order;
use crate::order::TextSet;
use crate::scope;
use crate::search;
use crate::search::ProjectSearchResult;
use crate::text;
use vstd::prelude::*;
use vstd::string::*;

verus! {

/// The size of a context where the request does not say.
pub const DEFAULT_MAX_CONTEXT_SIZE: usize = 204_800;

/// The largest context.
pub const MAX_CHAT_CONTEXT_SIZE: usize = 1_048_576;

/// How many hits among the raw sources go first in hybrid mode.
pub const HYBRID_SOURCES_FLOOR: usize = 2;

/// How many characters the parts of a context may have.
#[derive(Clone, Copy, Debug, PartialEq, Eq, Structural)]
pub struct ContextBudget {
    pub max_ctx: usize,
    pub response_reserve: usize,
    pub index_budget: usize,
    pub page_budget: usize,
    pub max_page_size: usize,
}

/// The size of a context: what the request asks for, up to the largest.
pub open spec fn context_size(requested: Option<usize>) -> usize {
    let size = match requested {
        Some(n) => if n > 0 {
            n
        } else {
            DEFAULT_MAX_CONTEXT_SIZE
        },
        None => DEFAULT_MAX_CONTEXT_SIZE,
    };
    if size < MAX_CHAT_CONTEXT_SIZE {
        size
    } else {
        MAX_CHAT_CONTEXT_SIZE
    }
}

/// The budget for a context: 15 per cent for the reply, 5 for the index and 50 for the pages; one
/// page takes 30 per cent of these or 5000 characters, whichever is more, but not more than all.
pub open spec fn budget_for(requested: Option<usize>) -> ContextBudget {
    let size = context_size(requested);
    let pages = (size * 50 / 100) as usize;
    let page = (pages * 30 / 100) as usize;
    let page = if page < 5_000 {
        5_000
    } else {
        page
    };
    ContextBudget {
        max_ctx: size,
        response_reserve: (size * 15 / 100) as usize,
        index_budget: (size * 5 / 100) as usize,
        page_budget: pages,
        max_page_size: if page < pages {
            page
        } else {
            pages
        },
    }
}

/// Divides the size of a context.
pub fn compute_context_budget(max_context_size: Option<usize>) -> (r: ContextBudget)
    ensures
        r == budget_for(max_context_size),
{
    let size: usize = match max_context_size {
        Some(n) => if n > 0 {
            n
        } else {
            DEFAULT_MAX_CONTEXT_SIZE
        },
        None => DEFAULT_MAX_CONTEXT_SIZE,
    };
    let size: usize = if size < MAX_CHAT_CONTEXT_SIZE {
        size
    } else {
        MAX_CHAT_CONTEXT_SIZE
    };
    let pages: usize = size * 50 / 100;
    let page: usize = pages * 30 / 100;
    let page: usize = if page < 5_000 {
        5_000
    } else {
        page
    };
    ContextBudget {
        max_ctx: size,
        response_reserve: size * 15 / 100,
        index_budget: size * 5 / 100,
        page_budget: pages,
        max_page_size: if page < pages {
            page
        } else {
            pages
        },
    }
}

/// However large a context is asked for, the budget stays below the largest, its parts fit into
/// it, and one page fits into what the pages have.
pub proof fn budget_is_bounded(requested: Option<usize>)
    ensures
        ({
            let budget = budget_for(requested);
            &&& 0 < budget.max_ctx <= MAX_CHAT_CONTEXT_SIZE
            &&& budget.response_reserve + budget.index_budget + budget.page_budget
                <= budget.max_ctx
            &&& budget.page_budget <= MAX_CHAT_CONTEXT_SIZE / 2
            &&& budget.max_page_size <= budget.page_budget
        }),
{
}

/// The cap on one block: what the request asks for, up to what all pages have.
pub open spec fn block_cap(requested: Option<usize>, budget: ContextBudget) -> Option<usize> {
    match requested {
        Some(n) => Some(
            if n < budget.page_budget {
                n
            } else {
                budget.page_budget
            },
        ),
        None => None,
    }
}

/// Tells the cap on one block.
pub fn compute_effective_max_block_chars(requested: Option<usize>, budget: &ContextBudget) -> (r:
    Option<usize>)
    ensures
        r == block_cap(requested, *budget),
{
    match requested {
        Some(n) => Some(
            if n < budget.page_budget {
                n
            } else {
                budget.page_budget
            },
        ),
        None => None,
    }
}

/// How many hits an allowlist let through.
#[derive(Clone, Copy, Debug, PartialEq, Eq, Structural)]
pub struct SourceFilterStats {
    pub active: bool,
    pub allowed_count: usize,
    pub candidate_count: usize,
    pub matched_count: usize,
}

/// Whether the path of a hit is one of the allowed paths; one that no allowlist could hold never
/// is.
pub open spec fn is_allowed(allowed: Set<Seq<char>>) -> spec_fn(ProjectSearchResult) -> bool {
    |hit: ProjectSearchResult|
        match scope::source_path(hit.path@) {
            Ok(path) => allowed.contains(path),
            Err(_) => false,
        }
}

/// The hits that an allowlist lets through; without one, all.
pub open spec fn filtered(
    hits: Seq<ProjectSearchResult>,
    allowed: Option<Set<Seq<char>>>,
) -> Seq<ProjectSearchResult> {
    match allowed {
        Some(allowed) => hits.filter(is_allowed(allowed)),
        None => hits,
    }
}

/// The counts of a filter.
pub open spec fn filter_stats(
    hits: Seq<ProjectSearchResult>,
    allowed: Option<Set<Seq<char>>>,
) -> SourceFilterStats {
    SourceFilterStats {
        active: allowed is Some,
        allowed_count: match allowed {
            Some(allowed) => allowed.len() as usize,
            None => 0,
        },
        candidate_count: hits.len() as usize,
        matched_count: filtered(hits, allowed).len() as usize,
    }
}

/// The texts of an optional set.
pub open spec fn set_of(set: Option<&TextSet>) -> Option<Set<Seq<char>>> {
    match set {
        Some(set) => Some(set@),
        None => None,
    }
}

/// Keeps the hits that an allowlist lets through, and counts them.
pub fn filter_results_by_allowed_source_paths(
    results: Vec<ProjectSearchResult>,
    allowed_paths: Option<&TextSet>,
) -> (r: (Vec<ProjectSearchResult>, SourceFilterStats))
    ensures
        r.0@ == filtered(results@, set_of(allowed_paths)),
        r.1 == filter_stats(results@, set_of(allowed_paths)),
{
    let candidate_count: usize = results.len();
    let allowed = match allowed_paths {
        Some(allowed) => allowed,
        None => {
            let stats = SourceFilterStats {
                active: false,
                allowed_count: 0,
                candidate_count,
                matched_count: candidate_count,
            };
            return (results, stats);
        },
    };
    let ghost all = results@;
    let ghost keep = is_allowed(allowed@);
    let mut kept: Vec<ProjectSearchResult> = Vec::new();
    assert(all.take(0).filter(keep) =~= Seq::empty()) by {
        reveal(Seq::filter);
    }
    for hit in it: results
        invariant
            it.seq() == all,
            keep == is_allowed(allowed@),
            kept@ == all.take(it.index() as int).filter(keep),
    {
        proof {
            let n = it.index() as int;
            assert(all.take(n + 1) =~= all.take(n).push(hit));
            text::lemma_filter_push(all.take(n), hit, keep);
        }
        match scope::normalize_project_relative_source_path(hit.path.as_str()) {
            Ok(path) => {
                if allowed.contains(path.as_str()) {
                    kept.push(hit);
                }
            },
            Err(_) => {},
        }
    }
    assert(all.take(all.len() as int) =~= all);
    let stats = SourceFilterStats {
        active: true,
        allowed_count: allowed.len(),
        candidate_count,
        matched_count: kept.len(),
    };
    (kept, stats)
}

/// Whether a path belongs to the raw sources: some part of it is `raw`, and the next `sources`.
pub open spec fn in_raw_sources(path: Seq<char>) -> bool {
    let pieces = text::split(text::replace(path, '\\', '/'), '/');
    exists|i: int| 0 <= i < pieces.len() - 1 && #[trigger] names_raw_sources(pieces, i)
}

/// Whether the piece at `i` is `raw` and the next `sources`.
pub open spec fn names_raw_sources(pieces: Seq<Seq<char>>, i: int) -> bool {
    pieces[i] == "raw"@ && pieces[i + 1] == "sources"@
}

/// Tests whether a path belongs to the raw sources.
pub fn is_raw_sources_path(path: &str) -> (r: bool)
    ensures
        r == in_raw_sources(path@),
{
    let pieces = text::split_text(text::replaced(path, '\\', '/').as_str(), '/');
    let ghost all = text::split(text::replace(path@, '\\', '/'), '/');
    assert(text::views(pieces@).len() == pieces@.len());
    let mut i: usize = 1;
    while i < pieces.len()
        invariant
            1 <= i,
            text::views(pieces@) == all,
            all == text::split(text::replace(path@, '\\', '/'), '/'),
            all.len() == pieces@.len(),
            forall|j: int| 0 <= j < i - 1 && j < all.len() - 1 ==> !names_raw_sources(all, j),
        decreases pieces@.len() - i,
    {
        proof {
            assert(all[i - 1] == pieces@[i - 1]@);
            assert(all[i as int] == pieces@[i as int]@);
        }
        if text::same_text(pieces[i - 1].as_str(), "raw") && text::same_text(
            pieces[i].as_str(),
            "sources",
        ) {
            assert(names_raw_sources(all, i - 1));
            return true;
        }
        i = i + 1;
    }
    false
}

/// Whether a hit belongs to the raw sources.
pub open spec fn from_sources() -> spec_fn(ProjectSearchResult) -> bool {
    |hit: ProjectSearchResult| in_raw_sources(hit.path@)
}

/// Whether a hit does not belong to the raw sources.
pub open spec fn from_elsewhere() -> spec_fn(ProjectSearchResult) -> bool {
    |hit: ProjectSearchResult| !in_raw_sources(hit.path@)
}

/// How many hits of the raw sources go first.
pub open spec fn floor_of(hits: Seq<ProjectSearchResult>) -> int {
    let n = hits.filter(from_sources()).len();
    if n < HYBRID_SOURCES_FLOOR {
        n as int
    } else {
        HYBRID_SOURCES_FLOOR as int
    }
}

/// The order in which hits enter the context. In hybrid mode the first few of the raw sources go
/// ahead, and the rest follows by score; otherwise the order of the search stays.
pub open spec fn context_order(
    mode: RetrievalMode,
    hits: Seq<ProjectSearchResult>,
) -> Seq<ProjectSearchResult> {
    let sources = hits.filter(from_sources());
    if mode != RetrievalMode::Hybrid || sources.len() == 0 {
        hits
    } else {
        sources.take(floor_of(hits)) + order::ranked(
            hits.filter(from_elsewhere()) + sources.skip(floor_of(hits)),
        )
    }
}

proof fn lemma_none_from_sources(hits: Seq<ProjectSearchResult>)
    requires
        hits.filter(from_sources()).len() == 0,
    ensures
        hits.filter(from_elsewhere()) == hits,
    decreases hits.len(),
{
    reveal(Seq::filter);
    if hits.len() > 0 {
        lemma_none_from_sources(hits.drop_last());
        assert(hits.drop_last().push(hits.last()) =~= hits);
    }
}

/// Puts hits into the order in which they enter the context.
pub fn order_results_for_context(mode: RetrievalMode, results: Vec<ProjectSearchResult>) -> (r: Vec<
    ProjectSearchResult,
>)
    ensures
        r@ == context_order(mode, results@),
{
    if mode != RetrievalMode::Hybrid {
        return results;
    }
    let ghost all = results@;
    let mut floor: Vec<ProjectSearchResult> = Vec::new();
    let mut others: Vec<ProjectSearchResult> = Vec::new();
    let mut sources: Vec<ProjectSearchResult> = Vec::new();
    assert(all.take(0).filter(from_sources()) =~= Seq::empty()) by {
        reveal(Seq::filter);
    }
    assert(all.take(0).filter(from_elsewhere()) =~= Seq::empty()) by {
        reveal(Seq::filter);
    }
    for hit in it: results
        invariant
            it.seq() == all,
            floor@ + sources@ == all.take(it.index() as int).filter(from_sources()),
            floor@.len() <= HYBRID_SOURCES_FLOOR,
            floor@.len() < HYBRID_SOURCES_FLOOR ==> sources@.len() == 0,
            others@ == all.take(it.index() as int).filter(from_elsewhere()),
    {
        proof {
            let n = it.index() as int;
            assert(all.take(n + 1) =~= all.take(n).push(hit));
            text::lemma_filter_push(all.take(n), hit, from_sources());
            text::lemma_filter_push(all.take(n), hit, from_elsewhere());
        }
        let ghost before = floor@ + sources@;
        if !is_raw_sources_path(hit.path.as_str()) {
            others.push(hit);
        } else if floor.len() < HYBRID_SOURCES_FLOOR {
            floor.push(hit);
            assert(floor@ + sources@ =~= before.push(hit));
        } else {
            sources.push(hit);
            assert(floor@ + sources@ =~= before.push(hit));
        }
    }
    proof {
        assert(all.take(all.len() as int) =~= all);
        let found = all.filter(from_sources());
        if found.len() == 0 {
            lemma_none_from_sources(all);
        }
        assert(floor@.len() == floor_of(all));
        assert(floor@ =~= found.take(floor_of(all)));
        assert(sources@ =~= found.skip(floor_of(all)));
    }
    if floor.len() == 0 {
        return others;
    }
    others.append(&mut sources);
    let mut remainder = order::sort_ranked(others);
    floor.append(&mut remainder);
    floor
}

/// Only hybrid mode changes the order of the hits.
pub proof fn other_modes_keep_order(mode: RetrievalMode, hits: Seq<ProjectSearchResult>)
    requires
        mode != RetrievalMode::Hybrid,
    ensures
        context_order(mode, hits) == hits,
{
}

proof fn lemma_parted(hits: Seq<ProjectSearchResult>)
    ensures
        (hits.filter(from_sources()) + hits.filter(from_elsewhere())).to_multiset()
            == hits.to_multiset(),
    decreases hits.len(),
{
    broadcast use vstd::seq_lib::group_to_multiset_ensures;

    reveal(Seq::filter);
    let s = hits.filter(from_sources());
    let e = hits.filter(from_elsewhere());
    if hits.len() > 0 {
        let x = hits.last();
        let rest = hits.drop_last();
        lemma_parted(rest);
        let s0 = rest.filter(from_sources());
        let e0 = rest.filter(from_elsewhere());
        text::lemma_filter_push(rest, x, from_sources());
        text::lemma_filter_push(rest, x, from_elsewhere());
        assert(rest.push(x) =~= hits);
        if in_raw_sources(x.path@) {
            assert(s0.push(x) + e0 =~= (s0 + e0).insert(s0.len() as int, x));
        } else {
            assert(s0 + e0.push(x) =~= (s0 + e0).push(x));
        }
    } else {
        assert(s + e =~= hits);
    }
}

/// Ordering loses no hit and adds none.
pub proof fn order_keeps_hits(mode: RetrievalMode, hits: Seq<ProjectSearchResult>)
    ensures
        context_order(mode, hits).to_multiset() == hits.to_multiset(),
        context_order(mode, hits).len() == hits.len(),
{
    broadcast use vstd::seq_lib::group_to_multiset_ensures;

    let sources = hits.filter(from_sources());
    let others = hits.filter(from_elsewhere());
    let floor = sources.take(floor_of(hits));
    let left = sources.skip(floor_of(hits));
    if mode == RetrievalMode::Hybrid && sources.len() > 0 {
        lemma_parted(hits);
        order::ranked_keeps_items(others + left);
        vstd::seq_lib::lemma_multiset_commutative(floor, order::ranked(others + left));
        vstd::seq_lib::lemma_multiset_commutative(others, left);
        vstd::seq_lib::lemma_multiset_commutative(floor, left);
        vstd::seq_lib::lemma_multiset_commutative(sources, others);
        assert(floor + left =~= sources);
        assert(context_order(mode, hits).to_multiset() =~= hits.to_multiset());
        assert(context_order(mode, hits).to_multiset().len() == hits.to_multiset().len());
    }
}

/// Whether the score of every hit is a number.
pub open spec fn are_numbers(hits: Seq<ProjectSearchResult>) -> bool {
    forall|i: int| 0 <= i < hits.len() ==> search::score_rank((#[trigger] hits[i]).score) is Some
}

/// In hybrid mode the first hits of the raw sources, two where there are so many, go ahead in the
/// order of the search, and the rest goes by score and path, wherever the places that scores and
/// paths give to the rest agree. They do where every score is a number.
pub proof fn hybrid_keeps_sources_first(hits: Seq<ProjectSearchResult>)
    requires
        hits.filter(from_sources()).len() > 0,
    ensures
        ({
            let ordered = context_order(RetrievalMode::Hybrid, hits);
            let n = floor_of(hits);
            let rest = hits.filter(from_elsewhere()) + hits.filter(from_sources()).skip(n);
            &&& 0 < n <= HYBRID_SOURCES_FLOOR
            &&& ordered.take(n) == hits.filter(from_sources()).take(n)
            &&& order::places_agree(rest) ==> order::in_rank_order(ordered.skip(n))
            &&& are_numbers(hits) ==> order::places_agree(rest)
        }),
{
    let sources = hits.filter(from_sources());
    let n = floor_of(hits);
    let rest = hits.filter(from_elsewhere()) + sources.skip(n);
    let ordered = context_order(RetrievalMode::Hybrid, hits);
    if order::places_agree(rest) {
        order::ranked_is_in_order(rest);
    }
    if are_numbers(hits) {
        assert forall|i: int| 0 <= i < rest.len() implies search::score_rank(
            (#[trigger] rest[i]).score,
        ) is Some by {
            let elsewhere = hits.filter(from_elsewhere());
            if i < elsewhere.len() {
                assert(rest[i] == elsewhere[i]);
                assert(elsewhere.contains(rest[i]));
                hits.lemma_filter_contains_rev(from_elsewhere(), rest[i]);
            } else {
                assert(rest[i] == sources[i - elsewhere.len() + n]);
                assert(sources.contains(rest[i]));
                hits.lemma_filter_contains_rev(from_sources(), rest[i]);
            }
            let k = hits.index_of(rest[i]);
            assert(hits[k] == rest[i]);
        }
        order::ranks_agree(rest);
    }
    assert(ordered.take(n) =~= sources.take(n));
    assert(ordered.skip(n) =~= order::ranked(rest));
}

/// Every hit that an allowlist lets through is one that it names, whatever else was found.
pub proof fn filter_keeps_to_allowlist(
    hits: Seq<ProjectSearchResult>,
    allowed: Set<Seq<char>>,
    i: int,
)
    requires
        0 <= i < filtered(hits, Some(allowed)).len(),
    ensures
        scope::source_path(filtered(hits, Some(allowed))[i].path@) is Ok,
        allowed.contains(scope::source_path(filtered(hits, Some(allowed))[i].path@)->Ok_0),
        hits.contains(filtered(hits, Some(allowed))[i]),
{
    hits.lemma_filter_pred(is_allowed(allowed), i);
    hits.lemma_filter_contains_rev(is_allowed(allowed), filtered(hits, Some(allowed))[i]);
}

/// A hit in the context, under the number that the reply cites it by.
pub ghost struct Packed {
    pub id: nat,
    pub hit: ProjectSearchResult,
    pub content: Seq<char>,
}

/// The text of a hit; empty where the search gave none.
pub open spec fn content_of(hit: ProjectSearchResult) -> Seq<char> {
    match hit.content {
        Some(content) => content@,
        None => Seq::empty(),
    }
}

/// The line over a block: its number and title.
pub open spec fn header(id: nat, title: Seq<char>) -> Seq<char> {
    "["@ + text::decimal(id) + "] "@ + title + "\n"@
}

/// The first characters of a text.
pub open spec fn head(t: Seq<char>, n: int) -> Seq<char> {
    if n < t.len() {
        t.take(n)
    } else {
        t
    }
}

/// The hits packed into the budget, from the number `id` on with `size` characters taken. With a
/// cap on one block each is cut to it and the next is tried, as long as there is room for its
/// header. Without one they are packed whole until one does not fit; if that is the first of
/// all, it is cut to the size of one page.
pub open spec fn packed(
    hits: Seq<ProjectSearchResult>,
    id: nat,
    size: nat,
    budget: ContextBudget,
    cap: Option<usize>,
) -> Seq<Packed>
    decreases hits.len(),
{
    if hits.len() == 0 {
        Seq::empty()
    } else {
        let hit = hits[0];
        let content = content_of(hit);
        let over = header(id, hit.title@);
        let room = budget.page_budget - size;
        match cap {
            Some(most) => if room <= over.len() {
                Seq::empty()
            } else {
                let left = room - over.len();
                let kept = head(
                    content,
                    if most < left {
                        most as int
                    } else {
                        left
                    },
                );
                seq![Packed { id, hit, content: kept }] + packed(
                    hits.drop_first(),
                    id + 1,
                    size + over.len() + kept.len(),
                    budget,
                    cap,
                )
            },
            None => if over.len() + content.len() <= room {
                seq![Packed { id, hit, content }] + packed(
                    hits.drop_first(),
                    id + 1,
                    size + over.len() + content.len(),
                    budget,
                    cap,
                )
            } else if size == 0 {
                seq![Packed { id, hit, content: head(over + content, budget.max_page_size as int) }]
            } else {
                Seq::empty()
            },
        }
    }
}

/// The context that hits are packed into.
pub open spec fn context_of(
    hits: Seq<ProjectSearchResult>,
    budget: ContextBudget,
    cap: Option<usize>,
) -> Seq<Packed> {
    packed(hits, 1, 0, budget, cap)
}

/// The scores of a hit, with its number, title and path.
pub open spec fn evidence(p: Packed) -> Seq<(Seq<char>, JsonModel)> {
    json::no_fields().push(("score"@, JsonModel::Float(p.hit.score))).push(
        ("bm25Score"@, json::optional_float_model(p.hit.bm25_score)),
    ).push(("vectorScore"@, json::optional_float_model(p.hit.vector_score))).push(
        ("graphScore"@, json::optional_float_model(p.hit.graph_score)),
    ).push(("rrfScore"@, json::optional_float_model(p.hit.rrf_score))).push(
        ("graphRelatedTo"@, json::texts_model(text::views(p.hit.graph_related_to@))),
    ).push(("id"@, JsonModel::UInt(p.id))).push(("title"@, JsonModel::Text(p.hit.title@))).push(
        ("path"@, JsonModel::Text(p.hit.path@)),
    )
}

/// A hit as a reference.
pub open spec fn reference_model(p: Packed) -> JsonModel {
    JsonModel::Object(evidence(p))
}

/// A hit as a block: a reference with content.
pub open spec fn block_model(p: Packed) -> JsonModel {
    JsonModel::Object(evidence(p).push(("content"@, JsonModel::Text(p.content))))
}

/// The blocks of a context.
pub open spec fn block_models(context: Seq<Packed>) -> Seq<JsonModel> {
    context.map_values(|p: Packed| block_model(p))
}

/// The references of a context.
pub open spec fn reference_models(context: Seq<Packed>) -> Seq<JsonModel> {
    context.map_values(|p: Packed| reference_model(p))
}

/// Writes the scores of a hit, with its number, title and path.
fn evidence_fields(id: usize, hit: &ProjectSearchResult, Ghost(content): Ghost<Seq<char>>) -> (r:
    Fields)
    ensures
        r@ == evidence(Packed { id: id as nat, hit: *hit, content }),
{
    Fields::new().and("score", Json::Float(hit.score)).and(
        "bm25Score",
        Json::optional_float(hit.bm25_score),
    ).and("vectorScore", Json::optional_float(hit.vector_score)).and(
        "graphScore",
        Json::optional_float(hit.graph_score),
    ).and("rrfScore", Json::optional_float(hit.rrf_score)).and(
        "graphRelatedTo",
        Json::texts(hit.graph_related_to.as_slice()),
    ).and("id", Json::size(id)).and("title", Json::text(hit.title.as_str())).and(
        "path",
        Json::text(hit.path.as_str()),
    )
}

/// Adds a hit to the blocks and to the references.
pub fn push_context_result(
    context_blocks: &mut Vec<Json>,
    references: &mut Vec<Json>,
    ref_id: usize,
    result: &ProjectSearchResult,
    content: String,
)
    ensures
        json::items_model(final(context_blocks)@) == json::items_model(old(context_blocks)@).push(
            block_model(Packed { id: ref_id as nat, hit: *result, content: content@ }),
        ),
        json::items_model(final(references)@) == json::items_model(old(references)@).push(
            reference_model(Packed { id: ref_id as nat, hit: *result, content: content@ }),
        ),
{
    let ghost text = content@;
    let block = evidence_fields(ref_id, result, Ghost(text)).and("content", Json::Text(content));
    let reference = evidence_fields(ref_id, result, Ghost(text));
    context_blocks.push(block.object());
    references.push(reference.object());
    assert(json::items_model(context_blocks@) =~= json::items_model(old(context_blocks)@).push(
        block_model(Packed { id: ref_id as nat, hit: *result, content: text }),
    ));
    assert(json::items_model(references@) =~= json::items_model(old(references)@).push(
        reference_model(Packed { id: ref_id as nat, hit: *result, content: text }),
    ));
}

/// Writes the line over a block.
fn header_text(id: usize, title: &str) -> (r: String)
    ensures
        r@ == header(id as nat, title@),
{
    let mut r = "[".to_owned();
    r.append(text::decimal_text(id as u64).as_str());
    r.append("] ");
    r.append(title);
    r.append("\n");
    r
}

/// The first characters of a list of them.
fn head_text(v: &Vec<char>, n: usize) -> (r: String)
    ensures
        r@ == head(v@, n as int),
{
    let end: usize = if n < v.len() {
        n
    } else {
        v.len()
    };
    let r = text::text_between(v.as_slice(), 0, end);
    assert(r@ =~= head(v@, n as int));
    r
}

/// Packs hits into the budget.
pub fn assemble_context_blocks(
    ordered: Vec<ProjectSearchResult>,
    budget: &ContextBudget,
    max_block_chars: Option<usize>,
) -> (r: (Vec<Json>, Vec<Json>))
    ensures
        json::items_model(r.0@) == block_models(context_of(ordered@, *budget, max_block_chars)),
        json::items_model(r.1@) == reference_models(context_of(ordered@, *budget, max_block_chars)),
{
    let mut blocks: Vec<Json> = Vec::new();
    let mut references: Vec<Json> = Vec::new();
    let mut size: usize = 0;
    let mut i: usize = 0;
    let ghost all = ordered@;
    let ghost context = context_of(all, *budget, max_block_chars);
    let ghost mut done: Seq<Packed> = Seq::empty();
    proof {
        assert(all.skip(0) =~= all);
        assert(context =~= done + packed(all.skip(0), 1, 0, *budget, max_block_chars));
        assert(json::items_model(blocks@) =~= block_models(done));
        assert(json::items_model(references@) =~= reference_models(done));
    }
    let end: usize = ordered.len();
    while i < end
        invariant_except_break
            i <= end,
            context == done + packed(
                all.skip(i as int),
                (i + 1) as nat,
                size as nat,
                *budget,
                max_block_chars,
            ),
        invariant
            all == ordered@,
            end == all.len(),
            done.len() == i,
            json::items_model(blocks@) == block_models(done),
            json::items_model(references@) == reference_models(done),
            size <= budget.page_budget,
        ensures
            context == done,
        decreases end - i,
    {
        let hit = &ordered[i];
        let id: usize = i + 1;
        let ghost rest = all.skip(i as int);
        let ghost p0 = Packed { id: id as nat, hit: *hit, content: Seq::empty() };
        assert(rest[0] == *hit);
        assert(rest.drop_first() =~= all.skip(i + 1));
        let content = match &hit.content {
            Some(content) => text::chars_of(content.as_str()),
            None => Vec::new(),
        };
        assert(content@ == content_of(*hit));
        let over = text::chars_of(header_text(id, hit.title.as_str()).as_str());
        let room: usize = budget.page_budget - size;
        match max_block_chars {
            Some(cap) => {
                if room <= over.len() {
                    assert(context =~= done);
                    break;
                }
                let left: usize = room - over.len();
                let limit: usize = if cap < left {
                    cap
                } else {
                    left
                };
                let kept = head_text(&content, limit);
                let taken: usize = if limit < content.len() {
                    limit
                } else {
                    content.len()
                };
                let ghost p = Packed { content: kept@, ..p0 };
                push_context_result(&mut blocks, &mut references, id, hit, kept);
                size = size + over.len() + taken;
                proof {
                    lemma_done(done, p);
                    let more = packed(
                        all.skip(i + 1),
                        (id + 1) as nat,
                        size as nat,
                        *budget,
                        max_block_chars,
                    );
                    assert(done + (seq![p] + more) =~= done.push(p) + more);
                    done = done.push(p);
                }
            },
            None => {
                if over.len() <= room && content.len() <= room - over.len() {
                    let whole = text::text_of(content.as_slice());
                    let ghost p = Packed { content: whole@, ..p0 };
                    push_context_result(&mut blocks, &mut references, id, hit, whole);
                    size = size + over.len() + content.len();
                    proof {
                        lemma_done(done, p);
                        let more = packed(
                            all.skip(i + 1),
                            (id + 1) as nat,
                            size as nat,
                            *budget,
                            max_block_chars,
                        );
                        assert(done + (seq![p] + more) =~= done.push(p) + more);
                        done = done.push(p);
                    }
                } else {
                    if size == 0 {
                        let mut whole = over;
                        let mut tail = content;
                        whole.append(&mut tail);
                        let cut = head_text(&whole, budget.max_page_size);
                        let ghost p = Packed { content: cut@, ..p0 };
                        push_context_result(&mut blocks, &mut references, id, hit, cut);
                        proof {
                            lemma_done(done, p);
                            assert(done + seq![p] =~= done.push(p));
                            done = done.push(p);
                        }
                        i = i + 1;
                    } else {
                        assert(context =~= done);
                    }
                    break;
                }
            },
        }
        i = i + 1;
    }
    (blocks, references)
}

proof fn lemma_done(done: Seq<Packed>, p: Packed)
    ensures
        block_models(done.push(p)) == block_models(done).push(block_model(p)),
        reference_models(done.push(p)) == reference_models(done).push(reference_model(p)),
{
    assert(block_models(done.push(p)) =~= block_models(done).push(block_model(p)));
    assert(reference_models(done.push(p)) =~= reference_models(done).push(reference_model(p)));
}

/// The blocks of a context are its first hits in order, numbered one by one.
pub proof fn context_is_numbered(
    hits: Seq<ProjectSearchResult>,
    id: nat,
    size: nat,
    budget: ContextBudget,
    cap: Option<usize>,
)
    ensures
        packed(hits, id, size, budget, cap).len() <= hits.len(),
        forall|k: int|
            0 <= k < packed(hits, id, size, budget, cap).len() ==> {
                &&& (#[trigger] packed(hits, id, size, budget, cap)[k]).id == id + k
                &&& packed(hits, id, size, budget, cap)[k].hit == hits[k]
            },
    decreases hits.len(),
{
    if hits.len() > 0 {
        let content = content_of(hits[0]);
        let over = header(id, hits[0].title@);
        let room = budget.page_budget - size;
        let rest = hits.drop_first();
        match cap {
            Some(c) => {
                if room > over.len() {
                    let left = room - over.len();
                    let kept = head(
                        content,
                        if c < left {
                            c as int
                        } else {
                            left
                        },
                    );
                    context_is_numbered(rest, id + 1, size + over.len() + kept.len(), budget, cap);
                }
            },
            None => {
                if over.len() + content.len() <= room {
                    context_is_numbered(
                        rest,
                        id + 1,
                        size + over.len() + content.len(),
                        budget,
                        cap,
                    );
                }
            },
        }
    }
}

/// The references of a context go with its blocks: each is the block of its place without the
/// content.
pub proof fn references_match_blocks(context: Seq<Packed>, k: int)
    requires
        0 <= k < context.len(),
    ensures
        block_models(context).len() == reference_models(context).len(),
        reference_models(context)[k] == JsonModel::Object(
            block_models(context)[k]->Object_0.drop_last(),
        ),
{
    assert(evidence(context[k]).push(
        ("content"@, JsonModel::Text(context[k].content)),
    ).drop_last() =~= evidence(context[k]));
}

/// How many characters the contents of a context have.
pub open spec fn total_chars(context: Seq<Packed>) -> nat
    decreases context.len(),
{
    if context.len() == 0 {
        0
    } else {
        context[0].content.len() + total_chars(context.drop_first())
    }
}

/// The contents of a context fit into what the pages have, and into the cap each, if there is
/// one.
pub proof fn context_fits_budget(
    hits: Seq<ProjectSearchResult>,
    id: nat,
    size: nat,
    budget: ContextBudget,
    cap: Option<usize>,
)
    requires
        size <= budget.page_budget,
        budget.max_page_size <= budget.page_budget,
    ensures
        size + total_chars(packed(hits, id, size, budget, cap)) <= budget.page_budget,
        cap matches Some(c) ==> forall|k: int|
            0 <= k < packed(hits, id, size, budget, cap).len() ==> (#[trigger] packed(
                hits,
                id,
                size,
                budget,
                cap,
            )[k]).content.len() <= c,
    decreases hits.len(),
{
    let all = packed(hits, id, size, budget, cap);
    if hits.len() > 0 {
        let content = content_of(hits[0]);
        let over = header(id, hits[0].title@);
        let room = budget.page_budget - size;
        let rest = hits.drop_first();
        match cap {
            Some(c) => {
                if room > over.len() {
                    let left = room - over.len();
                    let kept = head(
                        content,
                        if c < left {
                            c as int
                        } else {
                            left
                        },
                    );
                    let more = packed(rest, id + 1, size + over.len() + kept.len(), budget, cap);
                    context_fits_budget(rest, id + 1, size + over.len() + kept.len(), budget, cap);
                    assert(all.drop_first() =~= more);
                }
            },
            None => {
                if over.len() + content.len() <= room {
                    let next = size + over.len() + content.len();
                    context_fits_budget(rest, id + 1, next, budget, cap);
                    assert(all.drop_first() =~= packed(rest, id + 1, next, budget, cap));
                } else if size == 0 {
                    assert(all.drop_first() =~= Seq::empty());
                    assert(total_chars(all.drop_first()) == 0);
                }
            },
        }
    }
}

/// Every block of the context under an allowlist comes from a path that it names, in every mode
/// and whatever the budget.
pub proof fn context_keeps_to_allowlist(
    mode: RetrievalMode,
    hits: Seq<ProjectSearchResult>,
    allowed: Set<Seq<char>>,
    budget: ContextBudget,
    cap: Option<usize>,
    k: int,
)
    requires
        0 <= k < context_of(
            context_order(mode, filtered(hits, Some(allowed))),
            budget,
            cap,
        ).len(),
    ensures
        ({
            let p = context_of(
                context_order(mode, filtered(hits, Some(allowed))),
                budget,
                cap,
            )[k];
            scope::source_path(p.hit.path@) matches Ok(path) && allowed.contains(path)
        }),
{
    broadcast use vstd::seq_lib::group_to_multiset_ensures;

    let kept = filtered(hits, Some(allowed));
    let ordered = context_order(mode, kept);
    context_is_numbered(ordered, 1, 0, budget, cap);
    order_keeps_hits(mode, kept);
    assert(ordered.contains(ordered[k]));
    assert(ordered.to_multiset().count(ordered[k]) > 0);
    assert(kept.contains(ordered[k]));
    let i = kept.index_of(ordered[k]);
    assert(kept[i] == ordered[k]);
    filter_keeps_to_allowlist(hits, allowed, i);
}

/// Where an allowlist names no hit, the context is empty.
pub proof fn unmatched_allowlist_leaves_nothing(
    mode: RetrievalMode,
    hits: Seq<ProjectSearchResult>,
    allowed: Set<Seq<char>>,
    budget: ContextBudget,
    cap: Option<usize>,
)
    requires
        forall|i: int| 0 <= i < hits.len() ==> !is_allowed(allowed)(#[trigger] hits[i]),
    ensures
        context_of(context_order(mode, filtered(hits, Some(allowed))), budget, cap).len() == 0,
{
    let kept = filtered(hits, Some(allowed));
    if kept.len() > 0 {
        filter_keeps_to_allowlist(hits, allowed, 0);
        let i = hits.index_of(kept[0]);
        assert(!is_allowed(allowed)(hits[i]));
    }
    context_is_numbered(context_order(mode, kept), 1, 0, budget, cap);
    order_keeps_hits(mode, kept);
}

/// A request is given the context that it asks for, up to 1048576 characters, and 204800 where it
/// asks for none; 15 per cent of it are kept for the reply, 5 for the index and 50 for the pages.
/// One page has 30 per cent of what the pages have, or 5000 characters if that is more, and never
/// more than all of it.
pub proof fn budget_is_divided(requested: Option<usize>)
    ensures
        ({
            let budget = budget_for(requested);
            &&& requested is Some && 0 < requested->0 <= 1_048_576 ==> budget.max_ctx
                == requested->0
            &&& requested is Some && requested->0 > 1_048_576 ==> budget.max_ctx == 1_048_576
            &&& requested is None || requested == Some(0usize) ==> budget.max_ctx == 204_800
            &&& 100 * budget.response_reserve <= 15 * budget.max_ctx < 100 * (
            budget.response_reserve + 1)
            &&& 100 * budget.index_budget <= 5 * budget.max_ctx < 100 * (budget.index_budget + 1)
            &&& 2 * budget.page_budget <= budget.max_ctx < 2 * (budget.page_budget + 1)
            &&& budget.page_budget <= 5_000 ==> budget.max_page_size == budget.page_budget
            &&& 5_000 < budget.page_budget <= 16_666 ==> budget.max_page_size == 5_000
            &&& budget.page_budget > 16_666 ==> 100 * budget.max_page_size <= 30
                * budget.page_budget < 100 * (budget.max_page_size + 1)
        }),
{
}

/// The cap on one block is the one asked for where the pages have so much, and otherwise all that
/// they have; without a cap there is none.
pub proof fn cap_is_as_asked(n: usize, budget: ContextBudget)
    ensures
        n <= budget.page_budget ==> block_cap(Some(n), budget) == Some(n),
        n > budget.page_budget ==> block_cap(Some(n), budget) == Some(budget.page_budget),
        block_cap(None, budget) is None,
{
}

/// A filter looks at each hit by itself and keeps the order: what is found in two parts is what
/// is found in the first, then what is found in the second. A hit stays if and only if the normal
/// form of its path is allowed; without an allowlist every hit stays.
pub proof fn filter_goes_hit_by_hit(
    a: Seq<ProjectSearchResult>,
    b: Seq<ProjectSearchResult>,
    hit: ProjectSearchResult,
    allowed: Set<Seq<char>>,
)
    ensures
        filtered(a + b, Some(allowed)) == filtered(a, Some(allowed)) + filtered(b, Some(allowed)),
        filtered(seq![hit], Some(allowed)) == (match scope::source_path(hit.path@) {
            Ok(path) => if allowed.contains(path) {
                seq![hit]
            } else {
                Seq::empty()
            },
            Err(_) => Seq::empty(),
        }),
        filtered(a, None) == a,
    decreases b.len(),
{
    let keep = is_allowed(allowed);
    assert(seq![hit] =~= Seq::empty().push(hit));
    text::lemma_filter_push(Seq::empty(), hit, keep);
    assert(Seq::<ProjectSearchResult>::empty().filter(keep) =~= Seq::empty()) by {
        reveal(Seq::filter);
    }
    if filtered(seq![hit], Some(allowed)).len() > 0 {
        assert(filtered(seq![hit], Some(allowed)) =~= seq![hit]);
    }
    if b.len() == 0 {
        assert(a + b =~= a);
        assert(b =~= Seq::empty());
        assert(b.filter(keep) =~= Seq::empty());
        assert(a.filter(keep) + b.filter(keep) =~= a.filter(keep));
    } else {
        let front = b.drop_last();
        let last = b.last();
        filter_goes_hit_by_hit(a, front, hit, allowed);
        assert(a + b =~= (a + front).push(last));
        assert(b =~= front.push(last));
        text::lemma_filter_push(a + front, last, keep);
        text::lemma_filter_push(front, last, keep);
        assert(filtered(a + b, Some(allowed)) =~= a.filter(keep) + b.filter(keep));
    }
}

/// The counts of a filter are those of the hits before it and behind it and of the allowlist; it
/// is active if and only if there is an allowlist.
pub proof fn filter_is_counted(hits: Seq<ProjectSearchResult>, allowed: Set<Seq<char>>)
    requires
        hits.len() <= usize::MAX,
        allowed.len() <= usize::MAX,
    ensures
        ({
            let with = filter_stats(hits, Some(allowed));
            let without = filter_stats(hits, None);
            &&& with.active && !without.active
            &&& with.allowed_count == allowed.len() && without.allowed_count == 0
            &&& with.candidate_count == hits.len() && without.candidate_count == hits.len()
            &&& with.matched_count == filtered(hits, Some(allowed)).len()
            &&& without.matched_count == hits.len()
        }),
{
    hits.lemma_filter_len(is_allowed(allowed));
}

/// A path belongs to the raw sources if it is made of something, the parts `raw` and `sources`
/// between separators, and something more; separators of either kind count. No other path does.
pub proof fn raw_sources_are_told_apart(
    path: Seq<char>,
    before: Seq<char>,
    behind: Seq<char>,
)
    ensures
        in_raw_sources("raw/sources"@),
        in_raw_sources("raw/sources"@.push('/') + behind),
        in_raw_sources(before.push('/') + "raw/sources"@),
        in_raw_sources(before.push('/') + "raw/sources"@.push('/') + behind),
        in_raw_sources(text::replace(path, '\\', '/')) == in_raw_sources(path),
        !text::contains(text::replace(path, '\\', '/'), "raw/sources"@) ==> !in_raw_sources(path),
{
    let core = "raw/sources"@;
    lemma_core_split();
    let seen = |p: Seq<char>| text::replace(p, '\\', '/');
    let pre = seen(before);
    let post = seen(behind);
    assert(seen(core) =~= core) by {
        reveal_strlit("raw/sources");
    }
    assert(seen(core.push('/') + behind) =~= core.push('/') + post) by {
        reveal_strlit("raw/sources");
    }
    assert(seen(before.push('/') + core) =~= pre.push('/') + core) by {
        reveal_strlit("raw/sources");
    }
    assert(seen(before.push('/') + core.push('/') + behind) =~= (pre.push('/') + core).push('/')
        + post) by {
        reveal_strlit("raw/sources");
    }
    text::split_parts_at_separator(core, post, '/');
    text::split_parts_at_separator(pre, core, '/');
    text::split_parts_at_separator(pre.push('/') + core, post, '/');
    text::lemma_split_len(pre, '/');
    let a = text::split(core, '/');
    let n = text::split(pre, '/').len();
    assert(names_raw_sources(a, 0));
    assert(names_raw_sources(a + text::split(post, '/'), 0));
    assert(names_raw_sources(text::split(pre, '/') + a, n as int));
    assert(names_raw_sources(text::split(pre, '/') + a + text::split(post, '/'), n as int));
    assert(seen(seen(path)) =~= seen(path));
    if in_raw_sources(path) {
        let p = seen(path);
        let pieces = text::split(p, '/');
        let i = choose|i: int| 0 <= i < pieces.len() - 1 && #[trigger] names_raw_sources(pieces, i);
        lemma_pieces_stand(p, i);
    }
}

proof fn lemma_core_split()
    ensures
        text::split("raw/sources"@, '/') == seq!["raw"@, "sources"@],
{
    reveal_strlit("raw/sources");
    reveal_strlit("raw");
    reveal_strlit("sources");
    assert("raw/sources"@ =~= "raw"@.push('/') + "sources"@);
    assert(!"raw"@.contains('/'));
    assert(!"sources"@.contains('/'));
    text::split_parts_at_separator("raw"@, "sources"@, '/');
    text::split_keeps_whole("raw"@, '/');
    text::split_keeps_whole("sources"@, '/');
    assert(text::split("raw/sources"@, '/') =~= seq!["raw"@, "sources"@]);
}

/// Two neighbouring pieces stand in the text with a separator between them.
proof fn lemma_pieces_stand(p: Seq<char>, i: int)
    requires
        0 <= i < text::split(p, '/').len() - 1,
        names_raw_sources(text::split(p, '/'), i),
    ensures
        text::contains(p, "raw/sources"@),
{
    let pieces = text::split(p, '/');
    let a = pieces[i].push('/') + pieces[i + 1];
    assert(a =~= "raw/sources"@) by {
        reveal_strlit("raw/sources");
        reveal_strlit("raw");
        reveal_strlit("sources");
    }
    text::pieces_make_text(p, '/');
    lemma_joined_holds(pieces, i);
}

#[verifier::spinoff_prover]
proof fn lemma_joined_holds(pieces: Seq<Seq<char>>, i: int)
    requires
        0 <= i < pieces.len() - 1,
    ensures
        text::contains(text::join(pieces, '/'), pieces[i].push('/') + pieces[i + 1]),
    decreases pieces.len(),
{
    let whole = text::join(pieces, '/');
    let front = pieces.drop_last();
    let a = pieces[i].push('/') + pieces[i + 1];
    if i + 2 == pieces.len() {
        if front.len() == 1 {
            assert(whole =~= Seq::<char>::empty() + a + Seq::<char>::empty());
            text::contained_text_stands_between(whole, Seq::empty(), a, Seq::empty());
        } else {
            let rest = text::join(front.drop_last(), '/').push('/');
            assert(whole =~= rest + a + Seq::<char>::empty());
            text::contained_text_stands_between(whole, rest, a, Seq::empty());
        }
    } else {
        lemma_joined_holds(front, i);
        let f = text::join(front, '/');
        text::contained_text_stands_between(f, Seq::empty(), a, Seq::empty());
        let k = choose|k: int|
            0 <= k && k + a.len() <= f.len() && f == #[trigger] f.take(k) + a + f.skip(k + a.len());
        let tail = f.skip(k + a.len()).push('/') + pieces.last();
        assert(whole =~= f.take(k) + a + tail);
        text::contained_text_stands_between(whole, f.take(k), a, tail);
    }
}

/// In hybrid mode the first two hits of the raw sources, or the only one, go ahead of all others.
/// Where no hit is of the raw sources, and in every other mode, the order of the search stays.
pub proof fn two_sources_go_first(hits: Seq<ProjectSearchResult>, mode: RetrievalMode)
    ensures
        ({
            let sources = hits.filter(|hit: ProjectSearchResult| in_raw_sources(hit.path@));
            let ordered = context_order(RetrievalMode::Hybrid, hits);
            &&& sources.len() >= 2 ==> ordered[0] == sources[0] && ordered[1] == sources[1]
            &&& sources.len() == 1 ==> ordered[0] == sources[0]
            &&& sources.len() == 0 ==> ordered == hits
            &&& mode != RetrievalMode::Hybrid ==> context_order(mode, hits) == hits
        }),
{
    let of_sources = |hit: ProjectSearchResult| in_raw_sources(hit.path@);
    assert(of_sources =~= from_sources());
    let sources = hits.filter(from_sources());
    if sources.len() > 0 {
        hybrid_keeps_sources_first(hits);
        let ordered = context_order(RetrievalMode::Hybrid, hits);
        let n = floor_of(hits);
        order_keeps_hits(RetrievalMode::Hybrid, hits);
        hits.lemma_filter_len(from_sources());
        assert(ordered.take(n)[0] == ordered[0]);
        if n > 1 {
            assert(ordered.take(n)[1] == ordered[1]);
        }
    }
}

/// The text of a hit is its content; a hit without one has the empty text. The line over a block
/// is its number in brackets, a space, the title, and a line feed.
pub proof fn block_is_headed(hit: ProjectSearchResult, id: nat, title: Seq<char>)
    ensures
        hit.content matches Some(content) ==> content_of(hit) == content@,
        hit.content is None ==> content_of(hit).len() == 0,
        header(id, title) == seq!['['] + text::decimal(id) + seq![']', ' '] + title + seq!['\n'],
{
    reveal_strlit("[");
    reveal_strlit("] ");
    reveal_strlit("\n");
    assert(header(id, title) =~= seq!['['] + text::decimal(id) + seq![']', ' '] + title
        + seq!['\n']);
}

/// How many characters a block takes of the budget: its line, with four characters besides the
/// number and the title, and its content.
pub open spec fn block_chars(id: nat, title: Seq<char>, content: Seq<char>) -> nat {
    text::decimal(id).len() + title.len() + 4 + content.len()
}

/// How many characters the blocks of a context take of the budget.
pub open spec fn chars_taken(context: Seq<Packed>) -> nat
    decreases context.len(),
{
    if context.len() == 0 {
        0
    } else {
        let last = context.last();
        chars_taken(context.drop_last()) + block_chars(last.id, last.hit.title@, last.content)
    }
}

proof fn lemma_taken_concat(a: Seq<Packed>, b: Seq<Packed>)
    ensures
        chars_taken(a + b) == chars_taken(a) + chars_taken(b),
    decreases b.len(),
{
    if b.len() == 0 {
        assert(a + b =~= a);
    } else {
        lemma_taken_concat(a, b.drop_last());
        assert((a + b).drop_last() =~= a + b.drop_last());
    }
}

proof fn lemma_taken_one(p: Packed)
    ensures
        chars_taken(seq![p]) == block_chars(p.id, p.hit.title@, p.content),
{
    assert(seq![p].drop_last() =~= Seq::empty());
    assert(chars_taken(seq![p].drop_last()) == 0);
}

proof fn lemma_packed_whole(
    hits: Seq<ProjectSearchResult>,
    id: nat,
    size: nat,
    budget: ContextBudget,
)
    requires
        size <= budget.page_budget,
        size > 0 || hits.len() == 0 || block_chars(id, hits[0].title@, content_of(hits[0]))
            <= budget.page_budget,
    ensures
        ({
            let context = packed(hits, id, size, budget, None);
            let n = context.len();
            &&& n <= hits.len()
            &&& forall|k: int| 0 <= k < n ==> (#[trigger] context[k]).content == content_of(hits[k])
            &&& size + chars_taken(context) <= budget.page_budget
            &&& n < hits.len() ==> size + chars_taken(context) + block_chars(
                id + n,
                hits[n as int].title@,
                content_of(hits[n as int]),
            ) > budget.page_budget
        }),
    decreases hits.len(),
{
    let context = packed(hits, id, size, budget, None);
    if hits.len() > 0 {
        let hit = hits[0];
        let content = content_of(hit);
        block_is_headed(hit, id, hit.title@);
        assert(header(id, hit.title@).len() + content.len() == block_chars(
            id,
            hit.title@,
            content,
        ));
        if size + block_chars(id, hit.title@, content) <= budget.page_budget {
            let rest = hits.drop_first();
            let next = size + block_chars(id, hit.title@, content);
            let more = packed(rest, id + 1, next, budget, None);
            let p = Packed { id, hit, content };
            lemma_packed_whole(rest, id + 1, next, budget);
            assert(context == seq![p] + more);
            lemma_taken_concat(seq![p], more);
            lemma_taken_one(p);
            assert forall|k: int| 0 <= k < context.len() implies (#[trigger] context[k]).content
                == content_of(hits[k]) by {
                if k > 0 {
                    assert(context[k] == more[k - 1]);
                    assert(rest[k - 1] == hits[k]);
                }
            }
            if context.len() < hits.len() {
                assert(rest[more.len() as int] == hits[context.len() as int]);
            }
        }
    }
}

/// Without a cap the context is the longest run of first hits whose lines and contents fit into
/// what the pages have, each with its whole content. Only a first hit that alone exceeds it is
/// cut: it stands alone, with the first characters of its line and content, as many as one page
/// has.
pub proof fn pages_stand_whole(hits: Seq<ProjectSearchResult>, budget: ContextBudget)
    requires
        hits.len() > 0,
    ensures
        ({
            let context = context_of(hits, budget, None);
            let n = context.len();
            let first = content_of(hits[0]);
            if block_chars(1, hits[0].title@, first) <= budget.page_budget {
                &&& 0 < n <= hits.len()
                &&& forall|k: int|
                    0 <= k < n ==> (#[trigger] context[k]).content == content_of(hits[k])
                        && context[k].hit == hits[k]
                &&& chars_taken(context) <= budget.page_budget
                &&& n < hits.len() ==> chars_taken(context) + block_chars(
                    n + 1,
                    hits[n as int].title@,
                    content_of(hits[n as int]),
                ) > budget.page_budget
            } else {
                let whole = header(1, hits[0].title@) + first;
                &&& n == 1
                &&& context[0].hit == hits[0]
                &&& budget.max_page_size <= whole.len() ==> context[0].content == whole.take(
                    budget.max_page_size as int,
                )
                &&& budget.max_page_size > whole.len() ==> context[0].content == whole
            }
        }),
{
    let first = content_of(hits[0]);
    let context = context_of(hits, budget, None);
    block_is_headed(hits[0], 1, hits[0].title@);
    assert(header(1, hits[0].title@).len() + first.len() == block_chars(1, hits[0].title@, first));
    context_is_numbered(hits, 1, 0, budget, None);
    if block_chars(1, hits[0].title@, first) <= budget.page_budget {
        lemma_packed_whole(hits, 1, 0, budget);
        assert(context.len() > 0);
    } else {
        let whole = header(1, hits[0].title@) + first;
        assert(whole.take(whole.len() as int) =~= whole);
        assert(context.len() == 1);
    }
}

/// What a block under a cap has room for: what is left of the pages behind its line, and the cap.
pub open spec fn room_for(budget: ContextBudget, cap: usize, before: nat, id: nat, title: Seq<
    char,
>) -> int {
    let left = budget.page_budget - before - block_chars(id, title, Seq::empty());
    if left < cap {
        left
    } else {
        cap as int
    }
}

spec fn begins_page(
    p: Packed,
    hit: ProjectSearchResult,
    id: nat,
    before: nat,
    budget: ContextBudget,
    cap: usize,
) -> bool {
    let text = content_of(hit);
    let room = room_for(budget, cap, before, id, hit.title@);
    &&& before + block_chars(id, hit.title@, Seq::empty()) < budget.page_budget
    &&& p.content == (if text.len() <= room {
        text
    } else {
        text.take(room)
    })
}

proof fn lemma_packed_capped(
    hits: Seq<ProjectSearchResult>,
    id: nat,
    size: nat,
    budget: ContextBudget,
    cap: usize,
    k: int,
)
    requires
        size <= budget.page_budget,
    ensures
        ({
            let context = packed(hits, id, size, budget, Some(cap));
            let n = context.len();
            &&& n <= hits.len()
            &&& 0 <= k < n ==> begins_page(
                context[k],
                hits[k],
                (id + k) as nat,
                size + chars_taken(context.take(k)),
                budget,
                cap,
            )
            &&& n < hits.len() ==> size + chars_taken(context) + block_chars(
                id + n,
                hits[n as int].title@,
                Seq::empty(),
            ) >= budget.page_budget
        }),
    decreases hits.len(),
{
    let context = packed(hits, id, size, budget, Some(cap));
    if hits.len() > 0 {
        let hit = hits[0];
        let content = content_of(hit);
        block_is_headed(hit, id, hit.title@);
        let over = header(id, hit.title@);
        assert(over.len() == block_chars(id, hit.title@, Seq::empty()));
        let room = budget.page_budget - size;
        if room > over.len() {
            let left = room - over.len();
            let kept = head(
                content,
                if cap < left {
                    cap as int
                } else {
                    left
                },
            );
            let p = Packed { id, hit, content: kept };
            let rest = hits.drop_first();
            let next = size + over.len() + kept.len();
            let more = packed(rest, id + 1, next, budget, Some(cap));
            lemma_packed_capped(rest, id + 1, next, budget, cap, k - 1);
            assert(context == seq![p] + more);
            lemma_taken_one(p);
            assert(block_chars(id, hit.title@, kept) == over.len() + kept.len());
            lemma_taken_concat(seq![p], more);
            if 0 < k < context.len() {
                assert(context[k] == more[k - 1]);
                assert(rest[k - 1] == hits[k]);
                assert(context.take(k) =~= seq![p] + more.take(k - 1));
                lemma_taken_concat(seq![p], more.take(k - 1));
            } else if k == 0 {
                assert(context.take(0) =~= Seq::empty());
                assert(chars_taken(context.take(0)) == 0);
                assert(content.take(content.len() as int) =~= content);
                assert(begins_page(p, hit, id, size, budget, cap));
            }
            if context.len() < hits.len() {
                assert(rest[more.len() as int] == hits[context.len() as int]);
            }
        }
    }
}

/// Under a cap each block is the first characters of its hit's content, as many as the cap allows
/// and as are left behind its line, and the whole content where that is no more. Hits are packed
/// one after another as long as a line leaves room.
pub proof fn capped_blocks_begin_their_pages(
    hits: Seq<ProjectSearchResult>,
    budget: ContextBudget,
    cap: usize,
)
    ensures
        ({
            let context = context_of(hits, budget, Some(cap));
            let n = context.len();
            &&& n <= hits.len()
            &&& forall|k: int|
                0 <= k < n ==> {
                    let text = content_of(hits[k]);
                    let room = room_for(
                        budget,
                        cap,
                        chars_taken(context.take(k)),
                        (k + 1) as nat,
                        hits[k].title@,
                    );
                    &&& (#[trigger] context[k]).hit == hits[k]
                    &&& context[k].content == (if text.len() <= room {
                        text
                    } else {
                        text.take(room)
                    })
                }
            &&& n < hits.len() ==> chars_taken(context) + block_chars(
                n + 1,
                hits[n as int].title@,
                Seq::empty(),
            ) >= budget.page_budget
        }),
{
    let context = context_of(hits, budget, Some(cap));
    lemma_packed_capped(hits, 1, 0, budget, cap, 0);
    context_is_numbered(hits, 1, 0, budget, Some(cap));
    assert forall|k: int| 0 <= k < context.len() implies {
        let text = content_of(hits[k]);
        let room = room_for(
            budget,
            cap,
            chars_taken(context.take(k)),
            (k + 1) as nat,
            hits[k].title@,
        );
        &&& (#[trigger] context[k]).hit == hits[k]
        &&& context[k].content == (if text.len() <= room {
            text
        } else {
            text.take(room)
        })
    } by {
        lemma_packed_capped(hits, 1, 0, budget, cap, k);
    }
}

/// A block is written with its number, the content that it has, and the fields of its hit.
pub proof fn block_is_written(p: Packed)
    ensures
        ({
            let value = block_model(p);
            &&& value->Object_0.len() == 10
            &&& value.field("score"@) == Some(JsonModel::Float(p.hit.score))
            &&& value.field("bm25Score"@) == Some(json::optional_float_model(p.hit.bm25_score))
            &&& value.field("vectorScore"@) == Some(json::optional_float_model(p.hit.vector_score))
            &&& value.field("graphScore"@) == Some(json::optional_float_model(p.hit.graph_score))
            &&& value.field("rrfScore"@) == Some(json::optional_float_model(p.hit.rrf_score))
            &&& value.field("graphRelatedTo"@) == Some(
                json::texts_model(text::views(p.hit.graph_related_to@)),
            )
            &&& value.field("id"@) == Some(JsonModel::UInt(p.id))
            &&& value.field("title"@) == Some(JsonModel::Text(p.hit.title@))
            &&& value.field("path"@) == Some(JsonModel::Text(p.hit.path@))
            &&& value.field("content"@) == Some(JsonModel::Text(p.content))
        }),
{
    reveal_strlit("score");
    reveal_strlit("bm25Score");
    reveal_strlit("vectorScore");
    reveal_strlit("graphScore");
    reveal_strlit("rrfScore");
    reveal_strlit("graphRelatedTo");
    reveal_strlit("id");
    reveal_strlit("title");
    reveal_strlit("path");
    reveal_strlit("content");
    assert("score"@.len() == 5 && "bm25Score"@.len() == 9 && "vectorScore"@.len() == 11);
    assert("graphScore"@.len() == 10 && "rrfScore"@.len() == 8 && "graphRelatedTo"@.len() == 14);
    assert("id"@.len() == 2 && "title"@.len() == 5 && "path"@.len() == 4);
    assert("content"@.len() == 7 && "score"@[0] == 's' && "title"@[0] == 't');
    let fields = (block_model(p))->Object_0;
    assert(fields[0] == ("score"@, JsonModel::Float(p.hit.score)));
    assert(fields[1] == ("bm25Score"@, json::optional_float_model(p.hit.bm25_score)));
    assert(fields[2] == ("vectorScore"@, json::optional_float_model(p.hit.vector_score)));
    assert(fields[3] == ("graphScore"@, json::optional_float_model(p.hit.graph_score)));
    assert(fields[4] == ("rrfScore"@, json::optional_float_model(p.hit.rrf_score)));
    assert(fields[5] == (
        "graphRelatedTo"@,
        json::texts_model(text::views(p.hit.graph_related_to@)),
    ));
    assert(fields[6] == ("id"@, JsonModel::UInt(p.id)));
    assert(fields[7] == ("title"@, JsonModel::Text(p.hit.title@)));
    assert(fields[8] == ("path"@, JsonModel::Text(p.hit.path@)));
    assert(fields[9] == ("content"@, JsonModel::Text(p.content)));
    json::each_field_is_read(fields);
}

/// A reference is written with its number and the fields of its hit, and without a content.
pub proof fn reference_is_written(p: Packed)
    ensures
        ({
            let value = reference_model(p);
            &&& value->Object_0.len() == 9
            &&& value.field("score"@) == Some(JsonModel::Float(p.hit.score))
            &&& value.field("bm25Score"@) == Some(json::optional_float_model(p.hit.bm25_score))
            &&& value.field("vectorScore"@) == Some(json::optional_float_model(p.hit.vector_score))
            &&& value.field("graphScore"@) == Some(json::optional_float_model(p.hit.graph_score))
            &&& value.field("rrfScore"@) == Some(json::optional_float_model(p.hit.rrf_score))
            &&& value.field("graphRelatedTo"@) == Some(
                json::texts_model(text::views(p.hit.graph_related_to@)),
            )
            &&& value.field("id"@) == Some(JsonModel::UInt(p.id))
            &&& value.field("title"@) == Some(JsonModel::Text(p.hit.title@))
            &&& value.field("path"@) == Some(JsonModel::Text(p.hit.path@))
        }),
        reference_model(p).field("content"@) is None,
{
    reveal_strlit("score");
    reveal_strlit("bm25Score");
    reveal_strlit("vectorScore");
    reveal_strlit("graphScore");
    reveal_strlit("rrfScore");
    reveal_strlit("graphRelatedTo");
    reveal_strlit("id");
    reveal_strlit("title");
    reveal_strlit("path");
    assert("score"@.len() == 5 && "bm25Score"@.len() == 9 && "vectorScore"@.len() == 11);
    assert("graphScore"@.len() == 10 && "rrfScore"@.len() == 8 && "graphRelatedTo"@.len() == 14);
    assert("id"@.len() == 2 && "title"@.len() == 5 && "path"@.len() == 4);
    assert("score"@[0] == 's' && "title"@[0] == 't');
    let fields = (reference_model(p))->Object_0;
    assert(fields[0] == ("score"@, JsonModel::Float(p.hit.score)));
    assert(fields[1] == ("bm25Score"@, json::optional_float_model(p.hit.bm25_score)));
    assert(fields[2] == ("vectorScore"@, json::optional_float_model(p.hit.vector_score)));
    assert(fields[3] == ("graphScore"@, json::optional_float_model(p.hit.graph_score)));
    assert(fields[4] == ("rrfScore"@, json::optional_float_model(p.hit.rrf_score)));
    assert(fields[5] == (
        "graphRelatedTo"@,
        json::texts_model(text::views(p.hit.graph_related_to@)),
    ));
    assert(fields[6] == ("id"@, JsonModel::UInt(p.id)));
    assert(fields[7] == ("title"@, JsonModel::Text(p.hit.title@)));
    assert(fields[8] == ("path"@, JsonModel::Text(p.hit.path@)));
    json::each_field_is_read(fields);
    reveal_strlit("content");
    assert("content"@.len() == 7);
    json::first_field_is_read(fields, fields.len() as int, "content"@);
}

/// The blocks and the references of a context stand in its order, one for each hit.
pub proof fn context_is_written(context: Seq<Packed>, k: int)
    requires
        0 <= k < context.len(),
    ensures
        block_models(context).len() == context.len(),
        reference_models(context).len() == context.len(),
        block_models(context)[k] == block_model(context[k]),
        reference_models(context)[k] == reference_model(context[k]),
{
}

/// The first characters of a text are all of it where it has no more than asked for.
pub proof fn head_is_beginning(t: Seq<char>, n: int)
    requires
        0 <= n,
    ensures
        n <= t.len() ==> head(t, n) == t.take(n),
        n >= t.len() ==> head(t, n) == t,
{
    assert(t.take(t.len() as int) =~= t);
}

} // verus!

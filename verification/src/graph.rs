//! The graph of a wiki: its pages, and the links between them.
use crate::json;
use crate::json::{Fields, Json, JsonModel};
use crate::order;
use crate::order::{Placed, Ranked, TextMap, TextSet};
use crate::paths;
use crate::projects::ProjectEntry;
use crate::response;
use crate::response::{OmnimindResponse, ResponseModel};
use crate::search;
use crate::text;
use crate::text::CharClass;
use crate::url;
use vstd::prelude::*;
use vstd::string::*;

verus! {

/// The text behind a prefix, if it has it.
pub open spec fn behind(s: Seq<char>, prefix: Seq<char>) -> Option<Seq<char>> {
    if text::starts_with(s, prefix) {
        Some(s.skip(prefix.len() as int))
    } else {
        None
    }
}

/// Whether a text begins with the line that closes the front matter.
pub open spec fn closes(s: Seq<char>) -> bool {
    s == "---"@ || text::starts_with(s, "---\n"@) || text::starts_with(s, "---\r\n"@)
        || text::starts_with(s, "---\r"@)
}

/// The front matter up to the first line that closes it, looked for from `from` on.
pub open spec fn up_to_close(s: Seq<char>, from: int) -> Option<Seq<char>>
    decreases s.len() - from,
{
    if from < 0 || from >= s.len() {
        None
    } else if s[from] == '\n' && closes(s.skip(from + 1)) {
        Some(s.take(from))
    } else {
        up_to_close(s, from + 1)
    }
}

/// The text without the mark that says how it is encoded.
pub open spec fn without_mark(content: Seq<char>) -> Seq<char> {
    if content.len() > 0 && content[0] == '\u{feff}' {
        content.drop_first()
    } else {
        content
    }
}

/// What stands behind the opening line of a block up to the line that closes it; nothing where
/// that line follows at once.
pub open spec fn block_in(rest: Seq<char>) -> Option<Seq<char>> {
    if closes(rest) {
        Some(Seq::empty())
    } else {
        up_to_close(rest, 0)
    }
}

/// The front matter of a page: what stands between an opening line of three dashes at its very
/// start and a closing one.
pub open spec fn front_matter(content: Seq<char>) -> Option<Seq<char>> {
    let content = without_mark(content);
    match behind(content, "---\r\n"@) {
        Some(rest) => block_in(rest),
        None => match behind(content, "---\n"@) {
            Some(rest) => block_in(rest),
            None => None,
        },
    }
}

/// Tests whether the characters from `at` on begin with the line that closes the front matter.
fn closes_at(v: &Vec<char>, at: usize) -> (r: bool)
    requires
        at <= v@.len(),
    ensures
        r == closes(v@.skip(at as int)),
{
    let fence = text::chars_of("---");
    let unix = text::chars_of("---\n");
    let dos = text::chars_of("---\r\n");
    let mac = text::chars_of("---\r");
    let ghost rest = v@.skip(at as int);
    proof {
        reveal_strlit("---");
        lemma_occurs_skip(v@, "---"@, at as int);
        lemma_occurs_skip(v@, "---\n"@, at as int);
        lemma_occurs_skip(v@, "---\r\n"@, at as int);
        lemma_occurs_skip(v@, "---\r"@, at as int);
        if text::starts_with(rest, "---"@) && rest.len() == 3 {
            assert(rest =~= rest.subrange(0, 3));
        }
        if rest == "---"@ {
            assert(rest.subrange(0, 3) =~= rest);
        }
    }
    (v.len() - at == 3 && text::matches_at(v.as_slice(), fence.as_slice(), at)) || text::matches_at(
        v.as_slice(),
        unix.as_slice(),
        at,
    ) || text::matches_at(v.as_slice(), dos.as_slice(), at) || text::matches_at(
        v.as_slice(),
        mac.as_slice(),
        at,
    )
}

proof fn lemma_occurs_skip(s: Seq<char>, p: Seq<char>, at: int)
    requires
        0 <= at <= s.len(),
    ensures
        text::occurs_at(s, p, at) == text::starts_with(s.skip(at), p),
{
    if at + p.len() <= s.len() {
        assert(s.subrange(at, at + p.len()) =~= s.skip(at).subrange(0, p.len() as int));
    }
}

/// Reads the front matter of a page.
pub fn yaml_frontmatter_block(content: &str) -> (r: Option<String>)
    ensures
        match r {
            Some(block) => front_matter(content@) == Some(block@),
            None => front_matter(content@) is None,
        },
{
    let v = text::chars_of(content);
    let start: usize = if v.len() > 0 && v[0] == '\u{feff}' {
        1
    } else {
        0
    };
    let ghost body = without_mark(content@);
    assert(body =~= v@.skip(start as int));
    let dos = text::chars_of("---\r\n");
    let unix = text::chars_of("---\n");
    proof {
        reveal_strlit("---\r\n");
        reveal_strlit("---\n");
        lemma_occurs_skip(v@, "---\r\n"@, start as int);
        lemma_occurs_skip(v@, "---\n"@, start as int);
    }
    let open: usize = if text::matches_at(v.as_slice(), dos.as_slice(), start) {
        start + 5
    } else if text::matches_at(v.as_slice(), unix.as_slice(), start) {
        start + 4
    } else {
        return None;
    };
    let ghost rest = v@.skip(open as int);
    assert(rest =~= body.skip(open - start));
    if closes_at(&v, open) {
        let block = String::new();
        assert(block@ =~= Seq::empty());
        return Some(block);
    }
    let mut i: usize = open;
    while i < v.len()
        invariant
            open <= i <= v@.len(),
            rest == v@.skip(open as int),
            front_matter(content@) == up_to_close(rest, 0),
            up_to_close(rest, 0) == up_to_close(rest, i - open),
        decreases v@.len() - i,
    {
        assert(rest[i - open] == v@[i as int]);
        if v[i] == '\n' {
            assert(rest.skip(i - open + 1) =~= v@.skip(i + 1));
            if closes_at(&v, i + 1) {
                let block = text::text_between(v.as_slice(), open, i);
                assert(block@ =~= rest.take(i - open));
                return Some(block);
            }
        }
        i = i + 1;
    }
    None
}

/// The type that a line of the front matter gives, in small letters; none where it is no such
/// line or gives nothing.
pub open spec fn type_in_line(line: Seq<char>) -> Option<Seq<char>> {
    match behind(text::trim(line), "type:"@) {
        Some(value) => {
            let bare = text::trim_both(
                text::trim_both(text::trim(value), CharClass::Only('"')),
                CharClass::Only('\''),
            );
            let small = text::unicode_lower(bare);
            if small.len() > 0 {
                Some(small)
            } else {
                None
            }
        },
        None => None,
    }
}

/// The type that the first line gives that gives one.
pub open spec fn type_in_lines(lines: Seq<Seq<char>>) -> Seq<char>
    decreases lines.len(),
{
    if lines.len() == 0 {
        "other"@
    } else {
        match type_in_line(lines[0]) {
            Some(node_type) => node_type,
            None => type_in_lines(lines.drop_first()),
        }
    }
}

/// The type of a page, from its front matter alone.
pub open spec fn page_type(content: Seq<char>) -> Seq<char> {
    match front_matter(content) {
        Some(block) => type_in_lines(text::split(block, '\n')),
        None => "other"@,
    }
}

/// Reads the type that a line of the front matter gives.
fn read_type_line(line: &str) -> (r: Option<String>)
    ensures
        match r {
            Some(node_type) => type_in_line(line@) == Some(node_type@),
            None => type_in_line(line@) is None,
        },
{
    let line = text::trimmed(line);
    if !text::begins_with(line.as_str(), "type:") {
        return None;
    }
    let v = text::chars_of(line.as_str());
    proof {
        reveal_strlit("type:");
    }
    let value = text::text_between(v.as_slice(), 5, v.len());
    assert(value@ =~= line@.skip(5));
    let bare = text::without_edges_of(
        text::without_edges_of(text::trimmed(value.as_str()).as_str(), CharClass::Only('"')).as_str(),
        CharClass::Only('\''),
    );
    let small = text::unicode_lowered(bare.as_str());
    if text::chars_of(small.as_str()).len() > 0 {
        Some(small)
    } else {
        None
    }
}

/// Reads the type of a page.
pub fn extract_type(content: &str) -> (r: String)
    ensures
        r@ == page_type(content@),
{
    let block = match yaml_frontmatter_block(content) {
        Some(block) => block,
        None => {
            return "other".to_owned();
        },
    };
    let lines = text::split_text(block.as_str(), '\n');
    let ghost all = text::views(lines@);
    assert(all.skip(0) =~= all);
    let mut i: usize = 0;
    while i < lines.len()
        invariant
            i <= lines@.len(),
            all == text::views(lines@),
            page_type(content@) == type_in_lines(all),
            type_in_lines(all) == type_in_lines(all.skip(i as int)),
        decreases lines@.len() - i,
    {
        proof {
            assert(all.skip(i as int)[0] == lines@[i as int]@);
            assert(all.skip(i as int).drop_first() =~= all.skip(i + 1));
        }
        match read_type_line(lines[i].as_str()) {
            Some(node_type) => {
                return node_type;
            },
            None => {},
        }
        i = i + 1;
    }
    assert(all.skip(i as int) =~= Seq::empty());
    "other".to_owned()
}

/// Two pages with the same front matter, or both without one, are of one type, whatever their
/// texts say. Text behind an empty block is no front matter either.
pub proof fn type_ignores_body(a: Seq<char>, b: Seq<char>, body: Seq<char>)
    requires
        front_matter(a) == front_matter(b),
    ensures
        page_type(a) == page_type(b),
        front_matter(a) is None ==> page_type(a) == "other"@,
        front_matter("---\n"@ + "---\n"@ + body) == Some(Seq::<char>::empty()),
        page_type("---\n"@ + "---\n"@ + body) == "other"@,
{
    reveal_strlit("---\n");
    reveal_strlit("---\r\n");
    reveal_strlit("type:");
    let fence = "---\n"@;
    let content = fence + fence + body;
    let none: Seq<char> = Seq::empty();
    assert(content[3] == '\n');
    if text::starts_with(content, "---\r\n"@) {
        assert(content.subrange(0, 5)[3] == "---\r\n"@[3]);
    }
    assert(content.subrange(0, 4) =~= fence);
    assert(content.skip(4) =~= fence + body);
    assert((fence + body).subrange(0, 4) =~= fence);
    reveal_with_fuel(type_in_lines, 2);
    assert(text::split(none, '\n') =~= seq![none]);
    assert(text::trim(none) =~= none);
    assert(type_in_line(none) is None);
    assert(seq![none].drop_first() =~= Seq::empty());
}

proof fn lemma_closes_early(head: Seq<char>, body: Seq<char>)
    requires
        head.len() >= 5,
    ensures
        closes(head + body) == closes(head),
{
    reveal_strlit("---");
    reveal_strlit("---\n");
    reveal_strlit("---\r\n");
    reveal_strlit("---\r");
    let all = head + body;
    assert(all.subrange(0, 4) =~= head.subrange(0, 4));
    assert(all.subrange(0, 5) =~= head.subrange(0, 5));
    assert("---"@.len() == 3 && "---\n"@.len() == 4 && "---\r\n"@.len() == 5 && "---\r"@.len() == 4);
    assert(text::starts_with(all, "---\n"@) == text::starts_with(head, "---\n"@));
    assert(text::starts_with(all, "---\r\n"@) == text::starts_with(head, "---\r\n"@));
    assert(text::starts_with(all, "---\r"@) == text::starts_with(head, "---\r"@));
}

proof fn lemma_close_found(block: Seq<char>, fence: Seq<char>, body: Seq<char>, from: int)
    requires
        fence == "\n---\n"@,
        0 <= from <= block.len(),
    ensures
        up_to_close(block + fence + body, from) == up_to_close(block + fence, from),
        up_to_close(block + fence, from) is Some,
    decreases block.len() - from,
{
    reveal_strlit("\n---\n");
    reveal_strlit("---\n");
    let head = block + fence;
    let all = head + body;
    assert(all[from] == head[from]);
    if from < block.len() {
        assert(all.skip(from + 1) =~= head.skip(from + 1) + body);
        lemma_closes_early(head.skip(from + 1), body);
        assert(all.take(from) =~= head.take(from));
        lemma_close_found(block, fence, body, from + 1);
    } else {
        assert(all[from] == '\n');
        assert(head.skip(from + 1).subrange(0, 4) =~= "---\n"@);
        assert(all.skip(from + 1).subrange(0, 4) =~= "---\n"@);
        assert(all.take(from) =~= head.take(from));
    }
}

/// The text of a page behind its closed front matter changes neither the front matter nor the
/// type.
pub proof fn body_changes_nothing(block: Seq<char>, a: Seq<char>, b: Seq<char>)
    ensures
        ({
            let head = "---\n"@ + (block + "\n---\n"@);
            &&& front_matter(head + a) == front_matter(head + b)
            &&& front_matter(head + a) is Some
            &&& page_type(head + a) == page_type(head + b)
        }),
{
    lemma_body_behind(block, a);
    lemma_body_behind(block, b);
}

proof fn lemma_body_behind(block: Seq<char>, body: Seq<char>)
    ensures
        front_matter("---\n"@ + (block + "\n---\n"@) + body) == block_in(block + "\n---\n"@),
        block_in(block + "\n---\n"@) is Some,
{
    reveal_strlit("---\n");
    reveal_strlit("---\r\n");
    reveal_strlit("\n---\n");
    let open = "---\n"@;
    let fence = "\n---\n"@;
    let head = block + fence;
    let content = open + head + body;
    assert(content[3] == '\n');
    if text::starts_with(content, "---\r\n"@) {
        assert(content.subrange(0, 5)[3] == "---\r\n"@[3]);
    }
    assert(content.subrange(0, 4) =~= open);
    assert(content.skip(4) =~= head + body);
    lemma_closes_early(head, body);
    lemma_close_found(block, fence, body, 0);
}

/// The targets of the wiki links in a text, from `from` on: what stands between double brackets,
/// up to a bar if there is one, trimmed; empty ones are left out.
pub open spec fn wikilinks(s: Seq<char>, from: int) -> Seq<Seq<char>>
    decreases s.len() - from,
    via wikilinks_decreases
{
    match text::find(s, "[["@, from) {
        None => Seq::empty(),
        Some(open) => match text::find(s, "]]"@, open + 2) {
            None => Seq::empty(),
            Some(close) => {
                let target = text::trim(text::cut(s.subrange(open + 2, close), '|').0);
                let rest = wikilinks(s, close + 2);
                if target.len() > 0 {
                    seq![target] + rest
                } else {
                    rest
                }
            },
        },
    }
}

#[via_fn]
proof fn wikilinks_decreases(s: Seq<char>, from: int) {
    reveal_strlit("[[");
    reveal_strlit("]]");
    text::lemma_find_bounds(s, "[["@, from);
    match text::find(s, "[["@, from) {
        None => {},
        Some(open) => {
            text::lemma_find_bounds(s, "]]"@, open + 2);
        },
    }
}

/// Reads the targets of the wiki links in a text.
pub fn extract_wikilinks(content: &str) -> (r: Vec<String>)
    ensures
        text::views(r@) == wikilinks(content@, 0),
{
    let v = text::chars_of(content);
    let opening = text::chars_of("[[");
    let closing = text::chars_of("]]");
    proof {
        reveal_strlit("[[");
        reveal_strlit("]]");
    }
    let mut out: Vec<String> = Vec::new();
    let mut from: usize = 0;
    let end: usize = v.len();
    assert(text::views(out@) + wikilinks(v@, 0) =~= wikilinks(v@, 0));
    loop
        invariant
            v@ == content@,
            opening@ == "[["@,
            closing@ == "]]"@,
            opening@.len() == 2,
            closing@.len() == 2,
            from <= v@.len(),
            end == v@.len(),
            text::views(out@) + wikilinks(v@, from as int) == wikilinks(content@, 0),
        decreases v@.len() - from,
    {
        let open: usize = match text::find_from(v.as_slice(), opening.as_slice(), from) {
            Some(open) => open,
            None => {
                proof {
                    text::lemma_not_found(v@, "[["@, from as int);
                    assert(text::views(out@) + wikilinks(v@, from as int) =~= text::views(out@));
                }
                return out;
            },
        };
        proof {
            text::lemma_found(v@, "[["@, from as int, open as int);
        }
        let close: usize = match text::find_from(v.as_slice(), closing.as_slice(), open + 2) {
            Some(close) => close,
            None => {
                proof {
                    text::lemma_not_found(v@, "]]"@, open + 2);
                    assert(text::views(out@) + wikilinks(v@, from as int) =~= text::views(out@));
                }
                return out;
            },
        };
        proof {
            text::lemma_found(v@, "]]"@, open + 2, close as int);
        }
        let inner = text::text_between(v.as_slice(), open + 2, close);
        let (first, _) = text::cut_text(inner.as_str(), '|');
        let target = text::trimmed(first.as_str());
        let ghost before = text::views(out@);
        let ghost rest = wikilinks(v@, close + 2);
        if text::chars_of(target.as_str()).len() > 0 {
            let ghost t = target@;
            out.push(target);
            proof {
                assert(text::views(out@) =~= before.push(t));
                assert(before + (seq![t] + rest) =~= before.push(t) + rest);
            }
        }
        from = close + 2;
    }
}

/// The first id that a link means but for the case of its letters, with dashes for blanks or as
/// it is.
pub open spec fn first_alike(raw: Seq<char>, ids: Seq<Seq<char>>) -> Option<Seq<char>>
    decreases ids.len(),
{
    let small = text::unicode_lower(raw);
    if ids.len() == 0 {
        None
    } else if text::unicode_lower(ids[0]) == text::replace(small, ' ', '-') || text::unicode_lower(
        ids[0],
    ) == small {
        Some(ids[0])
    } else {
        first_alike(raw, ids.drop_first())
    }
}

/// The id that a link means: the very same, else the first alike.
pub open spec fn link_target(raw: Seq<char>, ids: Seq<Seq<char>>) -> Option<Seq<char>> {
    if ids.contains(raw) {
        Some(raw)
    } else {
        first_alike(raw, ids)
    }
}

/// Finds the id that a link means.
pub fn resolve_link(raw: &str, ids: &TextSet) -> (r: Option<String>)
    ensures
        match r {
            Some(id) => link_target(raw@, ids.texts()) == Some(id@),
            None => link_target(raw@, ids.texts()) is None,
        },
{
    let ghost all = ids.texts();
    assert(ids@.contains(raw@) == all.contains(raw@));
    if ids.contains(raw) {
        return Some(raw.to_owned());
    }
    let small = text::unicode_lowered(raw);
    let dashed = text::replaced(small.as_str(), ' ', '-');
    let items = ids.items();
    assert(all.skip(0) =~= all);
    let mut i: usize = 0;
    while i < items.len()
        invariant
            i <= items@.len(),
            all == text::views(items@),
            small@ == text::unicode_lower(raw@),
            dashed@ == text::replace(small@, ' ', '-'),
            link_target(raw@, ids.texts()) == first_alike(raw@, all),
            first_alike(raw@, all) == first_alike(raw@, all.skip(i as int)),
        decreases items@.len() - i,
    {
        proof {
            assert(all.skip(i as int)[0] == items@[i as int]@);
            assert(all.skip(i as int).drop_first() =~= all.skip(i + 1));
        }
        let id = text::unicode_lowered(items[i].as_str());
        if text::same_text(id.as_str(), dashed.as_str()) || text::same_text(
            id.as_str(),
            small.as_str(),
        ) {
            return Some(items[i].clone());
        }
        i = i + 1;
    }
    assert(all.skip(i as int) =~= Seq::empty());
    None
}

proof fn lemma_alike_is_known(raw: Seq<char>, ids: Seq<Seq<char>>)
    ensures
        first_alike(raw, ids) matches Some(id) ==> ids.contains(id),
    decreases ids.len(),
{
    if ids.len() > 0 {
        lemma_alike_is_known(raw, ids.drop_first());
        assert(ids.contains(ids[0]));
        match first_alike(raw, ids.drop_first()) {
            Some(id) => {
                if ids.drop_first().contains(id) {
                    let k = ids.drop_first().index_of(id);
                    assert(ids[k + 1] == id);
                }
            },
            None => {},
        }
    }
}

/// A link means nothing but an id that there is, and an id means itself.
pub proof fn link_leads_to_page(raw: Seq<char>, ids: Seq<Seq<char>>)
    ensures
        link_target(raw, ids) matches Some(id) ==> ids.contains(id),
        ids.contains(raw) ==> link_target(raw, ids) == Some(raw),
{
    lemma_alike_is_known(raw, ids);
}

/// A file below the wiki directory: its path, its text unless it cannot be read as text, and the
/// title that the text gives.
pub struct GraphFile {
    pub path: Vec<u8>,
    pub content: Option<String>,
    pub title: String,
}

/// Whether a file is a page, by its name.
pub open spec fn is_page(path: Seq<u8>) -> bool {
    paths::byte_extension(path) == Some("md"@)
}

/// The directory that the pages of a project are below.
pub fn wiki_root(project_path: &str) -> (r: String)
    ensures
        r@ == paths::join(project_path@, "wiki"@),
{
    paths::joined(project_path, "wiki")
}

/// Tests whether a file is a page, by its name.
pub fn is_wiki_page(path: &[u8]) -> (r: bool)
    ensures
        r == is_page(path@),
{
    match paths::byte_extension_of(path) {
        Some(ext) => text::same_text(ext.as_str(), "md"),
        None => false,
    }
}

/// A page: its title, its type, its path in the project, and the links in its text.
pub ghost struct PageModel {
    pub title: Seq<char>,
    pub node_type: Seq<char>,
    pub path: Seq<char>,
    pub links: Seq<Seq<char>>,
}

/// A page.
struct Page {
    title: String,
    node_type: String,
    path: String,
    links: Vec<String>,
}

impl View for Page {
    type V = PageModel;

    closed spec fn view(&self) -> PageModel {
        PageModel {
            title: self.title@,
            node_type: self.node_type@,
            path: self.path@,
            links: text::views(self.links@),
        }
    }
}

/// The id of a page: its file name without the extension.
pub open spec fn page_id(path: Seq<u8>) -> Option<Seq<char>> {
    match paths::byte_stem(path) {
        Some(id) => if id.len() > 0 {
            Some(id)
        } else {
            None
        },
        None => None,
    }
}

/// The page that a file holds, under its id, if it holds one.
pub open spec fn page_of(project_path: Seq<char>, file: GraphFile) -> Option<
    (Seq<char>, PageModel),
> {
    if !is_page(file.path@) {
        None
    } else {
        match (file.content, page_id(file.path@)) {
            (Some(content), Some(id)) => Some(
                (
                    id,
                    PageModel {
                        title: file.title@,
                        node_type: page_type(content@),
                        path: paths::shown_path(project_path, file.path@),
                        links: wikilinks(content@, 0),
                    },
                ),
            ),
            _ => None,
        }
    }
}

/// The pages of a wiki by their ids; of two with one id the later counts.
pub open spec fn pages_of(project_path: Seq<char>, files: Seq<GraphFile>) -> Map<
    Seq<char>,
    PageModel,
>
    decreases files.len(),
{
    if files.len() == 0 {
        Map::empty()
    } else {
        let before = pages_of(project_path, files.drop_last());
        match page_of(project_path, files.last()) {
            Some((id, page)) => before.insert(id, page),
            None => before,
        }
    }
}

spec fn page_views(m: Map<Seq<char>, Page>) -> Map<Seq<char>, PageModel> {
    m.map_values(|p: Page| p@)
}

/// Reads the pages of a wiki.
fn read_pages(project_path: &str, files: Vec<GraphFile>) -> (r: TextMap<Page>)
    ensures
        page_views(r@) == pages_of(project_path@, files@),
{
    let mut pages: TextMap<Page> = TextMap::new();
    let ghost all = files@;
    assert(all.take(0) =~= Seq::empty());
    assert(page_views(pages@) =~= Map::empty());
    for file in it: files
        invariant
            it.seq() == all,
            page_views(pages@) == pages_of(project_path@, all.take(it.index() as int)),
    {
        proof {
            let n = it.index() as int;
            assert(all.take(n + 1).drop_last() =~= all.take(n));
            assert(all.take(n + 1).last() == file);
        }
        let GraphFile { path, content, title } = file;
        if is_wiki_page(path.as_slice()) {
            match (content, paths::byte_stem_of(path.as_slice())) {
                (Some(content), Some(id)) => {
                    if text::chars_of(id.as_str()).len() > 0 {
                        let node_type = extract_type(content.as_str());
                        let shown = paths::relative_to_project(project_path, path.as_slice());
                        let links = extract_wikilinks(content.as_str());
                        let page = Page { title, node_type, path: shown, links };
                        let ghost before = pages@;
                        let ghost key = id@;
                        pages = pages.put(id, page);
                        assert(page_views(pages@) =~= page_views(before).insert(key, page@));
                    }
                },
                _ => {},
            }
        }
    }
    assert(all.take(all.len() as int) =~= all);
    pages
}

/// The name of the link between two pages, whichever links to the other.
pub open spec fn link_name(a: Seq<char>, b: Seq<char>) -> Seq<char> {
    if order::text_before(a, b) {
        a + "::"@ + b
    } else {
        b + "::"@ + a
    }
}

/// Whether one of some links has that name.
pub open spec fn is_named(edges: Seq<(Seq<char>, Seq<char>)>, name: Seq<char>) -> bool {
    exists|i: int|
        0 <= i < edges.len() && link_name((#[trigger] edges[i]).0, edges[i].1) == name
}

/// The links with the one from a page by one of its wiki links, if that leads to another page
/// and there is no link of that name yet.
pub open spec fn with_link(
    edges: Seq<(Seq<char>, Seq<char>)>,
    source: Seq<char>,
    raw: Seq<char>,
    ids: Seq<Seq<char>>,
) -> Seq<(Seq<char>, Seq<char>)> {
    match link_target(raw, ids) {
        None => edges,
        Some(target) => if target == source || is_named(edges, link_name(source, target)) {
            edges
        } else {
            edges.push((source, target))
        },
    }
}

/// The links with those from a page.
pub open spec fn with_links(
    edges: Seq<(Seq<char>, Seq<char>)>,
    source: Seq<char>,
    links: Seq<Seq<char>>,
    ids: Seq<Seq<char>>,
) -> Seq<(Seq<char>, Seq<char>)>
    decreases links.len(),
{
    if links.len() == 0 {
        edges
    } else {
        with_link(with_links(edges, source, links.drop_last(), ids), source, links.last(), ids)
    }
}

/// The links from some of the pages.
pub open spec fn edges_from(
    sources: Seq<Seq<char>>,
    pages: Map<Seq<char>, PageModel>,
    ids: Seq<Seq<char>>,
) -> Seq<(Seq<char>, Seq<char>)>
    decreases sources.len(),
{
    if sources.len() == 0 {
        Seq::empty()
    } else {
        with_links(
            edges_from(sources.drop_last(), pages, ids),
            sources.last(),
            pages[sources.last()].links,
            ids,
        )
    }
}

/// How many links a page has, from it or to it.
pub open spec fn degree(edges: Seq<(Seq<char>, Seq<char>)>, id: Seq<char>) -> nat
    decreases edges.len(),
{
    if edges.len() == 0 {
        0
    } else {
        let before = degree(edges.drop_last(), id);
        if edges.last().0 == id || edges.last().1 == id {
            before + 1
        } else {
            before
        }
    }
}

/// A page in the graph.
#[derive(Debug)]
pub struct ApiGraphNode {
    pub id: String,
    pub label: String,
    pub node_type: String,
    pub path: String,
    pub link_count: usize,
}

/// A link in the graph. Its weight is a binary64 number, given by its bits.
#[derive(Debug)]
pub struct ApiGraphEdge {
    pub source: String,
    pub target: String,
    pub weight: u64,
}

/// The mathematical value of a page in the graph.
pub ghost struct NodeModel {
    pub id: Seq<char>,
    pub label: Seq<char>,
    pub node_type: Seq<char>,
    pub path: Seq<char>,
    pub link_count: nat,
}

impl View for ApiGraphNode {
    type V = NodeModel;

    open spec fn view(&self) -> NodeModel {
        NodeModel {
            id: self.id@,
            label: self.label@,
            node_type: self.node_type@,
            path: self.path@,
            link_count: self.link_count as nat,
        }
    }
}

/// The bits of the binary64 number one.
pub const ONE: u64 = 0x3ff0_0000_0000_0000;

/// The values of some pages in the graph.
pub open spec fn node_views(nodes: Seq<ApiGraphNode>) -> Seq<NodeModel> {
    nodes.map_values(|n: ApiGraphNode| n@)
}

/// The ends of some links.
pub open spec fn edge_views(edges: Seq<ApiGraphEdge>) -> Seq<(Seq<char>, Seq<char>)> {
    edges.map_values(|e: ApiGraphEdge| (e.source@, e.target@))
}

/// Whether every link weighs one.
pub open spec fn weigh_one(edges: Seq<ApiGraphEdge>) -> bool {
    forall|i: int| 0 <= i < edges.len() ==> (#[trigger] edges[i]).weight == ONE
}

/// Some of the pages as they stand in the graph; pages of the type `query` do not.
pub open spec fn nodes_of(
    ids: Seq<Seq<char>>,
    pages: Map<Seq<char>, PageModel>,
    edges: Seq<(Seq<char>, Seq<char>)>,
) -> Seq<NodeModel>
    decreases ids.len(),
{
    if ids.len() == 0 {
        Seq::empty()
    } else {
        let before = nodes_of(ids.drop_last(), pages, edges);
        let id = ids.last();
        let page = pages[id];
        if page.node_type == "query"@ {
            before
        } else {
            before.push(
                NodeModel {
                    id,
                    label: page.title,
                    node_type: page.node_type,
                    path: page.path,
                    link_count: degree(edges, id),
                },
            )
        }
    }
}

/// The links of a wiki, in the order of their sources.
pub open spec fn all_edges(pages: Map<Seq<char>, PageModel>) -> Seq<(Seq<char>, Seq<char>)> {
    edges_from(order::sorted(pages.dom()), pages, order::sorted(pages.dom()))
}

/// The pages of a wiki in the graph, in the order of their ids.
pub open spec fn all_nodes(pages: Map<Seq<char>, PageModel>) -> Seq<NodeModel> {
    nodes_of(order::sorted(pages.dom()), pages, all_edges(pages))
}

/// The name of the link between two pages.
fn link_name_of(a: &str, b: &str) -> (r: String)
    ensures
        r@ == link_name(a@, b@),
{
    let (first, second) = if order::comes_before(a, b) {
        (a, b)
    } else {
        (b, a)
    };
    let mut r = first.to_owned();
    r.append("::");
    r.append(second);
    r
}

proof fn lemma_degree_bound(edges: Seq<(Seq<char>, Seq<char>)>, id: Seq<char>)
    ensures
        degree(edges, id) <= edges.len(),
    decreases edges.len(),
{
    if edges.len() > 0 {
        lemma_degree_bound(edges.drop_last(), id);
    }
}

/// The links under construction, with their names and the number of links of each page.
struct Links {
    edges: Vec<ApiGraphEdge>,
    names: TextSet,
    counts: Vec<usize>,
}

impl Links {
    spec fn wf(self, ids: Seq<Seq<char>>) -> bool {
        &&& weigh_one(self.edges@)
        &&& forall|name: Seq<char>|
            self.names@.contains(name) == #[trigger] is_named(edge_views(self.edges@), name)
        &&& self.counts@.len() == ids.len()
        &&& forall|i: int|
            0 <= i < ids.len() ==> #[trigger] self.counts@[i] == degree(
                edge_views(self.edges@),
                ids[i],
            )
    }

    /// Adds the link from a page by one of its wiki links.
    fn link(self, at: usize, raw: &str, ids: &TextSet) -> (r: Links)
        requires
            self.wf(ids.texts()),
            at < ids.texts().len(),
        ensures
            r.wf(ids.texts()),
            edge_views(r.edges@) == with_link(
                edge_views(self.edges@),
                ids.texts()[at as int],
                raw@,
                ids.texts(),
            ),
    {
        let target = match resolve_link(raw, ids) {
            Some(target) => target,
            None => {
                return self;
            },
        };
        let source = ids.items()[at].clone();
        assert(source@ == ids.texts()[at as int]);
        if text::same_text(target.as_str(), source.as_str()) {
            return self;
        }
        let name = link_name_of(source.as_str(), target.as_str());
        let ghost before = edge_views(self.edges@);
        assert(self.names@.contains(name@) == is_named(before, name@));
        if self.names.contains(name.as_str()) {
            return self;
        }
        let ghost named = name@;
        let ghost all = ids.texts();
        let (found, to) = ids.slot(target.as_str());
        proof {
            link_leads_to_page(raw@, all);
            assert(all.to_set().contains(target@));
            assert(all[to as int] == target@);
            lemma_degree_bound(before, all[at as int]);
            lemma_degree_bound(before, all[to as int]);
        }
        let Links { edges, names, counts } = self;
        let mut edges = edges;
        let mut counts = counts;
        let names = names.with(name);
        let ghost first = counts@;
        let ghost pair = (source@, target@);
        edges.push(ApiGraphEdge { source, target, weight: ONE });
        let most: usize = edges.len();
        assert(first[at as int] < most && first[to as int] < most);
        let n: usize = counts[at];
        counts.set(at, n + 1);
        let m: usize = counts[to];
        counts.set(to, m + 1);
        proof {
            let after = edge_views(edges@);
            assert(after =~= before.push(pair));
            assert(after.drop_last() =~= before);
            assert forall|x: Seq<char>| names@.contains(x) == #[trigger] is_named(after, x) by {
                assert(names@.contains(x) == (is_named(before, x) || x == named));
                if is_named(before, x) {
                    let k = choose|k: int|
                        0 <= k < before.len() && link_name(
                            (#[trigger] before[k]).0,
                            before[k].1,
                        ) == x;
                    assert(after[k] == before[k]);
                }
                if x == named {
                    assert(after[before.len() as int] == pair);
                }
                if is_named(after, x) {
                    let k = choose|k: int|
                        0 <= k < after.len() && link_name((#[trigger] after[k]).0, after[k].1)
                            == x;
                    if k < before.len() {
                        assert(before[k] == after[k]);
                    }
                }
            }
            order::ascending_distinct(all);
            assert forall|i: int| 0 <= i < all.len() implies #[trigger] counts@[i] == degree(
                after,
                all[i],
            ) by {
                assert(first[i] == degree(before, all[i]));
            }
        }
        Links { edges, names, counts }
    }
}

/// Builds the graph of a wiki from the files below its directory.
pub fn build_graph(project_path: &str, files: Vec<GraphFile>) -> (r: (
    Vec<ApiGraphNode>,
    Vec<ApiGraphEdge>,
))
    ensures
        node_views(r.0@) == all_nodes(pages_of(project_path@, files@)),
        edge_views(r.1@) == all_edges(pages_of(project_path@, files@)),
        weigh_one(r.1@),
{
    let raw = read_pages(project_path, files);
    let ghost m = pages_of(project_path@, files@);
    let (ids, pages) = raw.into_entries();
    let ghost all = ids.texts();
    proof {
        assert(raw@.dom() =~= m.dom());
        lemma_pages_aligned(raw@, m, pages@);
    }
    let links = link_pages(&ids, &pages, Ghost(m));
    let nodes = collect_nodes(&ids, pages, &links, Ghost(m));
    (nodes, links.edges)
}

proof fn lemma_pages_aligned(raw: Map<Seq<char>, Page>, m: Map<Seq<char>, PageModel>, pages: Seq<Page>)
    requires
        page_views(raw) == m,
        pages == order::sorted(m.dom()).map_values(|k: Seq<char>| raw[k]),
        exists|s: TextSet| #[trigger] s.texts() == order::sorted(m.dom()) && s@ == m.dom(),
    ensures
        aligned(order::sorted(m.dom()), m, pages),
{
    let s = choose|s: TextSet| #[trigger] s.texts() == order::sorted(m.dom()) && s@ == m.dom();
    let ids = order::sorted(m.dom());
    assert forall|i: int| 0 <= i < ids.len() implies (#[trigger] pages[i])@ == m[ids[i]] by {
        assert(ids.to_set().contains(ids[i]));
        assert(m.dom().contains(ids[i]));
        assert(raw.dom().contains(ids[i]));
    }
}

/// Whether the pages stand in the order of their ids.
spec fn aligned(ids: Seq<Seq<char>>, m: Map<Seq<char>, PageModel>, pages: Seq<Page>) -> bool {
    &&& pages.len() == ids.len()
    &&& forall|i: int| 0 <= i < ids.len() ==> (#[trigger] pages[i])@ == m[ids[i]]
}

/// Links the pages.
fn link_pages(ids: &TextSet, pages: &Vec<Page>, Ghost(m): Ghost<Map<Seq<char>, PageModel>>) -> (r:
    Links)
    requires
        aligned(ids.texts(), m, pages@),
    ensures
        r.wf(ids.texts()),
        edge_views(r.edges@) == edges_from(ids.texts(), m, ids.texts()),
{
    let ghost all = ids.texts();
    let mut counts: Vec<usize> = Vec::new();
    let mut i: usize = 0;
    let count: usize = pages.len();
    while i < count
        invariant
            i <= count,
            counts@.len() == i,
            forall|j: int| 0 <= j < i ==> #[trigger] counts@[j] == 0,
        decreases count - i,
    {
        counts.push(0);
        i = i + 1;
    }
    let mut links = Links { edges: Vec::new(), names: TextSet::new(), counts };
    assert(edge_views(links.edges@) =~= Seq::empty());
    assert(all.take(0) =~= Seq::empty());
    let mut at: usize = 0;
    while at < count
        invariant
            at <= count,
            all == ids.texts(),
            count == all.len(),
            aligned(all, m, pages@),
            links.wf(all),
            edge_views(links.edges@) == edges_from(all.take(at as int), m, all),
        decreases count - at,
    {
        let ghost before = edge_views(links.edges@);
        let ghost targets = m[all[at as int]].links;
        let page = &pages[at];
        assert(text::views(page.links@) == targets);
        assert(targets.take(0) =~= Seq::empty());
        let mut k: usize = 0;
        while k < page.links.len()
            invariant
                k <= page.links@.len(),
                all == ids.texts(),
                at < all.len(),
                links.wf(all),
                targets == text::views(page.links@),
                edge_views(links.edges@) == with_links(
                    before,
                    all[at as int],
                    targets.take(k as int),
                    all,
                ),
            decreases page.links@.len() - k,
        {
            proof {
                assert(targets.take(k + 1).drop_last() =~= targets.take(k as int));
                assert(targets.take(k + 1).last() == page.links@[k as int]@);
            }
            links = links.link(at, page.links[k].as_str(), ids);
            k = k + 1;
        }
        proof {
            assert(targets.take(k as int) =~= targets);
            assert(all.take(at + 1).drop_last() =~= all.take(at as int));
            assert(all.take(at + 1).last() == all[at as int]);
        }
        at = at + 1;
    }
    assert(all.take(at as int) =~= all);
    links
}

/// Puts the pages into the graph, but for those of the type `query`.
fn collect_nodes(
    ids: &TextSet,
    pages: Vec<Page>,
    links: &Links,
    Ghost(m): Ghost<Map<Seq<char>, PageModel>>,
) -> (r: Vec<ApiGraphNode>)
    requires
        aligned(ids.texts(), m, pages@),
        links.wf(ids.texts()),
    ensures
        node_views(r@) == nodes_of(ids.texts(), m, edge_views(links.edges@)),
{
    let ghost all = ids.texts();
    let ghost edges = edge_views(links.edges@);
    let items = ids.items();
    let ghost list = pages@;
    let mut nodes: Vec<ApiGraphNode> = Vec::new();
    assert(all.take(0) =~= Seq::empty());
    assert(node_views(nodes@) =~= Seq::empty());
    let count: usize = pages.len();
    let mut i: usize = 0;
    for page in it: pages
        invariant
            it.seq() == list,
            count == list.len(),
            i == it.index(),
            all == text::views(items@),
            edges == edge_views(links.edges@),
            aligned(all, m, list),
            links.wf(all),
            node_views(nodes@) == nodes_of(all.take(i as int), m, edges),
    {
        proof {
            assert(all.take(i + 1).drop_last() =~= all.take(i as int));
            assert(all.take(i + 1).last() == items@[i as int]@);
            assert(list[i as int]@ == m[all[i as int]]);
        }
        if !text::same_text(page.node_type.as_str(), "query") {
            let ghost before = node_views(nodes@);
            let node = ApiGraphNode {
                id: items[i].clone(),
                label: page.title,
                node_type: page.node_type,
                path: page.path,
                link_count: links.counts[i],
            };
            let ghost model = node@;
            nodes.push(node);
            assert(node_views(nodes@) =~= before.push(model));
        }
        i = i + 1;
    }
    assert(all.take(list.len() as int) =~= all);
    nodes
}

impl Placed for ApiGraphNode {
    /// Pages with more links go first.
    open spec fn rank(&self) -> Option<int> {
        Some(self.link_count as int)
    }

    /// Pages with as many links go by their ids.
    open spec fn tag(&self) -> Seq<char> {
        self.id@
    }
}

impl Ranked for ApiGraphNode {
    fn goes_ahead_of(&self, other: &Self) -> (r: bool) {
        self.link_count > other.link_count || (self.link_count == other.link_count
            && order::comes_before(self.id.as_str(), other.id.as_str()))
    }
}

/// Whether a page is asked for: its id or its label holds the text, and it is of the type, as
/// far as the request says.
pub open spec fn is_wanted(q: Option<Seq<char>>, node_type: Option<Seq<char>>) -> spec_fn(
    ApiGraphNode,
) -> bool {
    |node: ApiGraphNode|
        {
            &&& q matches Some(q) ==> text::contains(text::unicode_lower(node.id@), q)
                || text::contains(text::unicode_lower(node.label@), q)
            &&& node_type matches Some(node_type) ==> node.node_type@ == node_type
        }
}

/// The text that a request asks for in small letters.
pub open spec fn small_parameter(query: Seq<char>, name: Seq<char>) -> Option<Seq<char>> {
    match url::parameter(url::query_parameters(query), name) {
        Some(value) => Some(text::unicode_lower(value)),
        None => None,
    }
}

/// How many pages of the graph a request asks for: 200 where it does not say, and not more than
/// 1000.
pub open spec fn node_limit(query: Seq<char>) -> int {
    match url::parameter(url::query_parameters(query), "limit"@) {
        Some(value) => match text::parse_size(value) {
            Some(n) => search::held_between(n as usize, 1, 1000) as int,
            None => 200,
        },
        None => 200,
    }
}

/// The first items of a list.
pub open spec fn first_of<T>(items: Seq<T>, n: int) -> Seq<T> {
    if n < items.len() {
        items.take(n)
    } else {
        items
    }
}

/// The pages that a request is answered with: those asked for, the ones with most links first.
pub open spec fn answered_nodes(query: Seq<char>, nodes: Seq<ApiGraphNode>) -> Seq<ApiGraphNode> {
    first_of(
        order::ranked(
            nodes.filter(
                is_wanted(
                    small_parameter(query, "q"@),
                    small_parameter(query, "nodeType"@),
                ),
            ),
        ),
        node_limit(query),
    )
}

/// Whether an id is that of one of some pages.
pub open spec fn has_node(nodes: Seq<ApiGraphNode>, id: Seq<char>) -> bool {
    exists|i: int| 0 <= i < nodes.len() && (#[trigger] nodes[i]).id@ == id
}

/// Whether a link is between two of some pages.
pub open spec fn is_between(nodes: Seq<ApiGraphNode>) -> spec_fn(ApiGraphEdge) -> bool {
    |edge: ApiGraphEdge| has_node(nodes, edge.source@) && has_node(nodes, edge.target@)
}

/// A page in the graph as JSON.
pub open spec fn node_model(node: NodeModel) -> JsonModel {
    JsonModel::Object(
        json::no_fields().push(("id"@, JsonModel::Text(node.id))).push(
            ("label"@, JsonModel::Text(node.label)),
        ).push(("nodeType"@, JsonModel::Text(node.node_type))).push(
            ("path"@, JsonModel::Text(node.path)),
        ).push(("linkCount"@, JsonModel::UInt(node.link_count))),
    )
}

/// A link as JSON.
pub open spec fn edge_model(edge: ApiGraphEdge) -> JsonModel {
    JsonModel::Object(
        json::no_fields().push(("source"@, JsonModel::Text(edge.source@))).push(
            ("target"@, JsonModel::Text(edge.target@)),
        ).push(("weight"@, JsonModel::Float(edge.weight))),
    )
}

/// The response with a graph.
pub open spec fn graph_response(
    project_id: Seq<char>,
    query: Seq<char>,
    nodes: Seq<ApiGraphNode>,
    edges: Seq<ApiGraphEdge>,
) -> ResponseModel {
    let shown = answered_nodes(query, nodes);
    response::success(
        json::no_fields().push(("ok"@, JsonModel::Bool(true))).push(
            ("projectId"@, JsonModel::Text(project_id)),
        ).push(
            (
                "nodes"@,
                JsonModel::Array(shown.map_values(|node: ApiGraphNode| node_model(node@))),
            ),
        ).push(
            (
                "edges"@,
                JsonModel::Array(
                    edges.filter(is_between(shown)).map_values(|e: ApiGraphEdge| edge_model(e)),
                ),
            ),
        ),
    )
}

/// Keeps the pages that are asked for.
fn wanted_nodes(nodes: Vec<ApiGraphNode>, q: Option<String>, node_type: Option<String>) -> (r: Vec<
    ApiGraphNode,
>)
    ensures
        r@ == nodes@.filter(
            is_wanted(
                text::optional_text(q),
                text::optional_text(node_type),
            ),
        ),
{
    let ghost all = nodes@;
    let ghost keep = is_wanted(
        text::optional_text(q),
        text::optional_text(node_type),
    );
    let mut kept: Vec<ApiGraphNode> = Vec::new();
    assert(all.take(0).filter(keep) =~= Seq::empty()) by {
        reveal(Seq::filter);
    }
    for node in it: nodes
        invariant
            it.seq() == all,
            keep == is_wanted(
                text::optional_text(q),
                text::optional_text(node_type),
            ),
            kept@ == all.take(it.index() as int).filter(keep),
    {
        proof {
            let n = it.index() as int;
            assert(all.take(n + 1) =~= all.take(n).push(node));
            text::lemma_filter_push(all.take(n), node, keep);
        }
        let named = match &q {
            Some(q) => text::contains_text(
                text::unicode_lowered(node.id.as_str()).as_str(),
                q.as_str(),
            ) || text::contains_text(
                text::unicode_lowered(node.label.as_str()).as_str(),
                q.as_str(),
            ),
            None => true,
        };
        let typed = match &node_type {
            Some(node_type) => text::same_text(node.node_type.as_str(), node_type.as_str()),
            None => true,
        };
        if named && typed {
            kept.push(node);
        }
    }
    assert(all.take(all.len() as int) =~= all);
    kept
}

/// Writes some pages of the graph as JSON, and tells their ids.
fn nodes_json(nodes: &Vec<ApiGraphNode>) -> (r: (Json, TextSet))
    ensures
        r.0@ == JsonModel::Array(nodes@.map_values(|node: ApiGraphNode| node_model(node@))),
        forall|id: Seq<char>| r.1@.contains(id) == #[trigger] has_node(nodes@, id),
{
    let mut ids = TextSet::new();
    let mut items: Vec<Json> = Vec::new();
    let mut i: usize = 0;
    while i < nodes.len()
        invariant
            i <= nodes@.len(),
            items@.len() == i,
            forall|j: int| 0 <= j < i ==> (#[trigger] items@[j])@ == node_model(nodes@[j]@),
            forall|id: Seq<char>|
                ids@.contains(id) == #[trigger] has_node(nodes@.take(i as int), id),
        decreases nodes@.len() - i,
    {
        let node = &nodes[i];
        items.push(
            Fields::new().and("id", Json::text(node.id.as_str())).and(
                "label",
                Json::text(node.label.as_str()),
            ).and("nodeType", Json::text(node.node_type.as_str())).and(
                "path",
                Json::text(node.path.as_str()),
            ).and("linkCount", Json::size(node.link_count)).object(),
        );
        let ghost before = ids@;
        ids = ids.with(node.id.clone());
        proof {
            let less = nodes@.take(i as int);
            let more = nodes@.take(i + 1);
            assert forall|id: Seq<char>| ids@.contains(id) == #[trigger] has_node(more, id) by {
                assert(before.contains(id) == has_node(less, id));
                if has_node(less, id) {
                    let k = choose|k: int| 0 <= k < less.len() && (#[trigger] less[k]).id@ == id;
                    assert(more[k].id@ == id);
                }
                if id == node.id@ {
                    assert(more[i as int].id@ == id);
                }
                if has_node(more, id) {
                    let k = choose|k: int| 0 <= k < more.len() && (#[trigger] more[k]).id@ == id;
                    if k < i {
                        assert(less[k].id@ == id);
                    }
                }
            }
        }
        i = i + 1;
    }
    assert(nodes@.take(i as int) =~= nodes@);
    assert(json::items_model(items@) =~= nodes@.map_values(
        |node: ApiGraphNode| node_model(node@),
    ));
    (json::array(items), ids)
}

/// Writes the links between some pages as JSON.
fn edges_json(edges: Vec<ApiGraphEdge>, ids: &TextSet, Ghost(nodes): Ghost<Seq<ApiGraphNode>>) -> (r:
    Json)
    requires
        forall|id: Seq<char>| ids@.contains(id) == #[trigger] has_node(nodes, id),
    ensures
        r@ == JsonModel::Array(
            edges@.filter(is_between(nodes)).map_values(|e: ApiGraphEdge| edge_model(e)),
        ),
{
    let ghost all = edges@;
    let ghost keep = is_between(nodes);
    let mut items: Vec<Json> = Vec::new();
    assert(all.take(0).filter(keep) =~= Seq::empty()) by {
        reveal(Seq::filter);
    }
    for edge in it: edges
        invariant
            it.seq() == all,
            keep == is_between(nodes),
            forall|id: Seq<char>| ids@.contains(id) == #[trigger] has_node(nodes, id),
            items@.len() == all.take(it.index() as int).filter(keep).len(),
            forall|j: int|
                0 <= j < items@.len() ==> (#[trigger] items@[j])@ == edge_model(
                    all.take(it.index() as int).filter(keep)[j],
                ),
    {
        proof {
            let n = it.index() as int;
            assert(all.take(n + 1) =~= all.take(n).push(edge));
            text::lemma_filter_push(all.take(n), edge, keep);
            assert(ids@.contains(edge.source@) == has_node(nodes, edge.source@));
            assert(ids@.contains(edge.target@) == has_node(nodes, edge.target@));
        }
        if ids.contains(edge.source.as_str()) && ids.contains(edge.target.as_str()) {
            let weight: u64 = edge.weight;
            items.push(
                Fields::new().and("source", Json::Text(edge.source)).and(
                    "target",
                    Json::Text(edge.target),
                ).and("weight", Json::Float(weight)).object(),
            );
        }
    }
    assert(all.take(all.len() as int) =~= all);
    assert(json::items_model(items@) =~= all.filter(keep).map_values(
        |e: ApiGraphEdge| edge_model(e),
    ));
    json::array(items)
}

/// Answers with the graph of a project: the pages asked for, those with most links first, and the
/// links between them.
pub fn handle_graph(
    project: &ProjectEntry,
    query: &str,
    nodes: Vec<ApiGraphNode>,
    edges: Vec<ApiGraphEdge>,
) -> (r: OmnimindResponse)
    requires
        url::query_decodable(query@),
    ensures
        r@ == graph_response(project.id@, query@, nodes@, edges@),
{
    let params = url::parse_query(query);
    let q = match url::parameter_of(&params, "q") {
        Some(q) => Some(text::unicode_lowered(q)),
        None => None,
    };
    let node_type = match url::parameter_of(&params, "nodeType") {
        Some(node_type) => Some(text::unicode_lowered(node_type)),
        None => None,
    };
    let limit: usize = match url::parameter_of(&params, "limit") {
        Some(limit) => match text::parsed_size(limit) {
            Some(n) => search::clamp_size(n, 1, 1000),
            None => 200,
        },
        None => 200,
    };
    let kept = wanted_nodes(nodes, q, node_type);
    let mut shown = order::sort_ranked(kept);
    shown.truncate(limit);
    assert(shown@ =~= answered_nodes(query@, nodes@));
    let (nodes, ids) = nodes_json(&shown);
    let edges = edges_json(edges, &ids, Ghost(shown@));
    response::success_response(
        Fields::new().and("ok", Json::Bool(true)).and(
            "projectId",
            Json::text(project.id.as_str()),
        ).and("nodes", nodes).and("edges", edges),
    )
}

/// However a graph is asked for, the answer has as many pages as asked for at most, the ones with
/// most links first, and no link but between two of them.
pub proof fn answer_is_connected(
    query: Seq<char>,
    nodes: Seq<ApiGraphNode>,
    edges: Seq<ApiGraphEdge>,
)
    ensures
        ({
            let shown = answered_nodes(query, nodes);
            let links = edges.filter(is_between(shown));
            &&& shown.len() <= node_limit(query) <= 1000
            &&& order::in_rank_order(shown)
            &&& forall|i: int|
                0 <= i < links.len() ==> has_node(shown, (#[trigger] links[i]).source@)
                    && has_node(shown, links[i].target@)
        }),
{
    let shown = answered_nodes(query, nodes);
    let kept = nodes.filter(
        is_wanted(small_parameter(query, "q"@), small_parameter(query, "nodeType"@)),
    );
    order::ranks_agree(kept);
    order::ranked_is_in_order(kept);
    assert forall|i: int, j: int| 0 <= i < j < shown.len() implies !order::ahead(
        #[trigger] shown[j],
        #[trigger] shown[i],
    ) by {
        assert(shown[j] == order::ranked(kept)[j]);
        assert(shown[i] == order::ranked(kept)[i]);
    }
    let links = edges.filter(is_between(shown));
    assert forall|i: int| 0 <= i < links.len() implies has_node(
        shown,
        (#[trigger] links[i]).source@,
    ) && has_node(shown, links[i].target@) by {
        edges.lemma_filter_pred(is_between(shown), i);
    }
}

/// A limit leaves out the pages with the fewest links: none that is left out goes ahead of one
/// that is shown.
pub proof fn limit_keeps_best_linked(query: Seq<char>, nodes: Seq<ApiGraphNode>, i: int, j: int)
    requires
        0 <= i < answered_nodes(query, nodes).len(),
        answered_nodes(query, nodes).len() <= j < order::ranked(
            nodes.filter(
                is_wanted(small_parameter(query, "q"@), small_parameter(query, "nodeType"@)),
            ),
        ).len(),
    ensures
        ({
            let all = order::ranked(
                nodes.filter(
                    is_wanted(small_parameter(query, "q"@), small_parameter(query, "nodeType"@)),
                ),
            );
            !order::ahead(all[j], answered_nodes(query, nodes)[i]) && all[j].link_count
                <= answered_nodes(query, nodes)[i].link_count
        }),
{
    let kept = nodes.filter(
        is_wanted(small_parameter(query, "q"@), small_parameter(query, "nodeType"@)),
    );
    order::ranks_agree(kept);
    order::ranked_is_in_order(kept);
    let all = order::ranked(kept);
    assert(answered_nodes(query, nodes)[i] == all[i]);
    assert(!order::ahead(all[j], all[i]));
}

/// Whether some links are sound: each joins two different pages that there are, and no two have
/// one name.
pub open spec fn sound(edges: Seq<(Seq<char>, Seq<char>)>, ids: Seq<Seq<char>>) -> bool {
    &&& forall|i: int|
        0 <= i < edges.len() ==> {
            &&& ids.contains((#[trigger] edges[i]).0)
            &&& ids.contains(edges[i].1)
            &&& edges[i].0 != edges[i].1
        }
    &&& forall|i: int, j: int|
        0 <= i < j < edges.len() ==> link_name((#[trigger] edges[i]).0, edges[i].1) != link_name(
            (#[trigger] edges[j]).0,
            edges[j].1,
        )
}

proof fn lemma_links_sound(
    edges: Seq<(Seq<char>, Seq<char>)>,
    source: Seq<char>,
    links: Seq<Seq<char>>,
    ids: Seq<Seq<char>>,
)
    requires
        sound(edges, ids),
        ids.contains(source),
    ensures
        sound(with_links(edges, source, links, ids), ids),
    decreases links.len(),
{
    if links.len() > 0 {
        let before = with_links(edges, source, links.drop_last(), ids);
        lemma_links_sound(edges, source, links.drop_last(), ids);
        link_leads_to_page(links.last(), ids);
        match link_target(links.last(), ids) {
            Some(target) => {
                let name = link_name(source, target);
                if target != source && !is_named(before, name) {
                    let after = before.push((source, target));
                    assert forall|i: int| 0 <= i < before.len() implies link_name(
                        (#[trigger] before[i]).0,
                        before[i].1,
                    ) != name by {}
                    assert forall|i: int, j: int| 0 <= i < j < after.len() implies link_name(
                        (#[trigger] after[i]).0,
                        after[i].1,
                    ) != link_name((#[trigger] after[j]).0, after[j].1) by {
                        assert(after[i] == before[i]);
                        if j < before.len() {
                            assert(after[j] == before[j]);
                        }
                    }
                    assert(sound(after, ids));
                }
            },
            None => {},
        }
    }
}

proof fn lemma_edges_sound(
    sources: Seq<Seq<char>>,
    pages: Map<Seq<char>, PageModel>,
    ids: Seq<Seq<char>>,
)
    requires
        forall|i: int| 0 <= i < sources.len() ==> ids.contains(#[trigger] sources[i]),
    ensures
        sound(edges_from(sources, pages, ids), ids),
    decreases sources.len(),
{
    if sources.len() > 0 {
        lemma_edges_sound(sources.drop_last(), pages, ids);
        lemma_links_sound(
            edges_from(sources.drop_last(), pages, ids),
            sources.last(),
            pages[sources.last()].links,
            ids,
        );
    }
}

/// Every link of the graph joins two different pages, and two pages that link to each other, or
/// one of them twice, have one link.
pub proof fn graph_is_sound(pages: Map<Seq<char>, PageModel>)
    ensures
        sound(all_edges(pages), order::sorted(pages.dom())),
{
    let ids = order::sorted(pages.dom());
    lemma_edges_sound(ids, pages, ids);
}

proof fn lemma_name_kept(
    edges: Seq<(Seq<char>, Seq<char>)>,
    source: Seq<char>,
    links: Seq<Seq<char>>,
    ids: Seq<Seq<char>>,
    name: Seq<char>,
)
    requires
        is_named(edges, name),
    ensures
        is_named(with_links(edges, source, links, ids), name),
    decreases links.len(),
{
    if links.len() > 0 {
        let before = with_links(edges, source, links.drop_last(), ids);
        lemma_name_kept(edges, source, links.drop_last(), ids, name);
        let after = with_link(before, source, links.last(), ids);
        let k = choose|k: int|
            0 <= k < before.len() && link_name((#[trigger] before[k]).0, before[k].1) == name;
        assert(after[k] == before[k]);
    }
}

proof fn lemma_link_named(
    edges: Seq<(Seq<char>, Seq<char>)>,
    source: Seq<char>,
    links: Seq<Seq<char>>,
    ids: Seq<Seq<char>>,
    k: int,
)
    requires
        0 <= k < links.len(),
        link_target(links[k], ids) is Some,
        link_target(links[k], ids)->0 != source,
    ensures
        is_named(
            with_links(edges, source, links, ids),
            link_name(source, link_target(links[k], ids)->0),
        ),
    decreases links.len(),
{
    let before = with_links(edges, source, links.drop_last(), ids);
    let name = link_name(source, link_target(links[k], ids)->0);
    let after = with_link(before, source, links.last(), ids);
    if k < links.len() - 1 {
        lemma_link_named(edges, source, links.drop_last(), ids, k);
        let i = choose|i: int|
            0 <= i < before.len() && link_name((#[trigger] before[i]).0, before[i].1) == name;
        assert(after[i] == before[i]);
    } else if !is_named(before, name) {
        assert(after[before.len() as int] == (source, link_target(links[k], ids)->0));
    }
}

proof fn lemma_edge_named(
    sources: Seq<Seq<char>>,
    pages: Map<Seq<char>, PageModel>,
    ids: Seq<Seq<char>>,
    at: int,
    k: int,
)
    requires
        0 <= at < sources.len(),
        0 <= k < pages[sources[at]].links.len(),
        link_target(pages[sources[at]].links[k], ids) is Some,
        link_target(pages[sources[at]].links[k], ids)->0 != sources[at],
    ensures
        is_named(
            edges_from(sources, pages, ids),
            link_name(sources[at], link_target(pages[sources[at]].links[k], ids)->0),
        ),
    decreases sources.len(),
{
    let before = edges_from(sources.drop_last(), pages, ids);
    let links = pages[sources.last()].links;
    if at < sources.len() - 1 {
        lemma_edge_named(sources.drop_last(), pages, ids, at, k);
        lemma_name_kept(
            before,
            sources.last(),
            links,
            ids,
            link_name(sources[at], link_target(pages[sources[at]].links[k], ids)->0),
        );
    } else {
        lemma_link_named(before, sources.last(), links, ids, k);
    }
}

/// Whether one of some links joins two pages, in either direction.
pub open spec fn are_joined(
    edges: Seq<(Seq<char>, Seq<char>)>,
    a: Seq<char>,
    b: Seq<char>,
) -> bool {
    exists|i: int| 0 <= i < edges.len() && (#[trigger] edges[i] == (a, b) || edges[i] == (b, a))
}

proof fn lemma_colons_part(a: Seq<char>, b: Seq<char>, c: Seq<char>, d: Seq<char>)
    requires
        !a.contains(':'),
        !c.contains(':'),
        a + "::"@ + b == c + "::"@ + d,
    ensures
        a == c,
        b == d,
{
    reveal_strlit("::");
    let left = a + "::"@ + b;
    let right = c + "::"@ + d;
    if a.len() < c.len() {
        assert(left[a.len() as int] == ':');
        assert(right[a.len() as int] == c[a.len() as int]);
        assert(c.contains(c[a.len() as int]));
    }
    if c.len() < a.len() {
        assert(right[c.len() as int] == ':');
        assert(left[c.len() as int] == a[c.len() as int]);
        assert(a.contains(a[c.len() as int]));
    }
    assert(left.take(a.len() as int) =~= a);
    assert(right.take(c.len() as int) =~= c);
    assert(left.skip((a.len() + 2) as int) =~= b);
    assert(right.skip((c.len() + 2) as int) =~= d);
}

/// Every wiki link from a page of the graph that leads to another page has its edge: one of the
/// name of the two, which joins these two wherever no id holds a colon.
pub proof fn links_have_edges(pages: Map<Seq<char>, PageModel>, at: int, k: int)
    requires
        0 <= at < order::sorted(pages.dom()).len(),
        0 <= k < pages[order::sorted(pages.dom())[at]].links.len(),
        link_target(
            pages[order::sorted(pages.dom())[at]].links[k],
            order::sorted(pages.dom()),
        ) is Some,
        link_target(
            pages[order::sorted(pages.dom())[at]].links[k],
            order::sorted(pages.dom()),
        )->0 != order::sorted(pages.dom())[at],
    ensures
        ({
            let ids = order::sorted(pages.dom());
            let target = link_target(pages[ids[at]].links[k], ids)->0;
            &&& is_named(all_edges(pages), link_name(ids[at], target))
            &&& (forall|i: int| 0 <= i < ids.len() ==> !(#[trigger] ids[i]).contains(':'))
                ==> are_joined(all_edges(pages), ids[at], target)
        }),
{
    let ids = order::sorted(pages.dom());
    let source = ids[at];
    let target = link_target(pages[source].links[k], ids)->0;
    let edges = all_edges(pages);
    let name = link_name(source, target);
    lemma_edge_named(ids, pages, ids, at, k);
    if forall|i: int| 0 <= i < ids.len() ==> !(#[trigger] ids[i]).contains(':') {
        graph_is_sound(pages);
        link_leads_to_page(pages[source].links[k], ids);
        let i = choose|i: int|
            0 <= i < edges.len() && link_name((#[trigger] edges[i]).0, edges[i].1) == name;
        let (a, b) = edges[i];
        assert(!ids[ids.index_of(a)].contains(':'));
        assert(!ids[ids.index_of(b)].contains(':'));
        assert(!ids[ids.index_of(target)].contains(':'));
        if order::text_before(a, b) {
            if order::text_before(source, target) {
                lemma_colons_part(a, b, source, target);
            } else {
                lemma_colons_part(a, b, target, source);
            }
        } else {
            if order::text_before(source, target) {
                lemma_colons_part(b, a, source, target);
            } else {
                lemma_colons_part(b, a, target, source);
            }
        }
        assert(edges[i] == (source, target) || edges[i] == (target, source));
    }
}

/// Whether a link means a page by its id: the two are the same, or the same in small letters, with
/// dashes for the blanks of the link or without.
pub open spec fn are_alike(raw: Seq<char>, id: Seq<char>) -> bool {
    ||| id == raw
    ||| text::unicode_lower(id) == text::unicode_lower(raw)
    ||| text::unicode_lower(id) == text::replace(text::unicode_lower(raw), ' ', '-')
}

/// A link means a page only where the two are alike, and it means one wherever some page is; the
/// very same id counts before all others, and otherwise the first one alike.
pub proof fn link_means_page_alike(raw: Seq<char>, ids: Seq<Seq<char>>)
    ensures
        match link_target(raw, ids) {
            Some(id) => {
                &&& ids.contains(id)
                &&& are_alike(raw, id)
                &&& id == raw || exists|k: int|
                    0 <= k < ids.len() && #[trigger] ids[k] == id && forall|j: int|
                        0 <= j < k ==> !are_alike(raw, #[trigger] ids[j])
            },
            None => forall|j: int| 0 <= j < ids.len() ==> !are_alike(raw, #[trigger] ids[j]),
        },
        ids.contains(raw) ==> link_target(raw, ids) == Some(raw),
    decreases ids.len(),
{
    if !ids.contains(raw) {
        assert forall|j: int| 0 <= j < ids.len() implies #[trigger] ids[j] != raw by {
            assert(ids.contains(ids[j]));
        }
        if ids.len() > 0 && first_alike(raw, ids) != Some(ids[0]) || ids.len() > 0 && !are_alike(
            raw,
            ids[0],
        ) {
            let rest = ids.drop_first();
            assert(!rest.contains(raw)) by {
                if rest.contains(raw) {
                    let i = rest.index_of(raw);
                    assert(ids[i + 1] == raw);
                }
            }
            link_means_page_alike(raw, rest);
            match link_target(raw, rest) {
                Some(id) => {
                    let k = choose|k: int|
                        0 <= k < rest.len() && #[trigger] rest[k] == id && forall|j: int|
                            0 <= j < k ==> !are_alike(raw, #[trigger] rest[j]);
                    assert(ids[k + 1] == id);
                    assert(ids.contains(ids[k + 1]));
                    assert forall|j: int| 0 <= j < k + 1 implies !are_alike(
                        raw,
                        #[trigger] ids[j],
                    ) by {
                        if j > 0 {
                            assert(rest[j - 1] == ids[j]);
                        }
                    }
                },
                None => {
                    assert forall|j: int| 0 <= j < ids.len() implies !are_alike(
                        raw,
                        #[trigger] ids[j],
                    ) by {
                        if j > 0 {
                            assert(rest[j - 1] == ids[j]);
                        }
                    }
                },
            }
        } else if ids.len() > 0 {
            assert(ids.contains(ids[0]));
        }
    }
}

proof fn lemma_find_shift(pre: Seq<char>, b: Seq<char>, p: Seq<char>, from: int)
    requires
        0 <= from,
        p.len() > 0,
    ensures
        text::find(pre + b, p, pre.len() + from) == (match text::find(b, p, from) {
            Some(at) => Some(pre.len() + at),
            None => None,
        }),
    decreases b.len() + 1 - from,
{
    let s = pre + b;
    if from + p.len() <= b.len() {
        assert(s.subrange(pre.len() + from, pre.len() + from + p.len()) =~= b.subrange(
            from,
            from + p.len(),
        ));
        lemma_find_shift(pre, b, p, from + 1);
    }
}

proof fn lemma_links_shift(pre: Seq<char>, b: Seq<char>, from: int)
    requires
        0 <= from,
    ensures
        wikilinks(pre + b, pre.len() + from) == wikilinks(b, from),
    decreases b.len() - from,
{
    reveal_strlit("[[");
    reveal_strlit("]]");
    let s = pre + b;
    lemma_find_shift(pre, b, "[["@, from);
    text::lemma_find_bounds(b, "[["@, from);
    match text::find(b, "[["@, from) {
        None => {},
        Some(open) => {
            lemma_find_shift(pre, b, "]]"@, open + 2);
            text::lemma_find_bounds(b, "]]"@, open + 2);
            match text::find(b, "]]"@, open + 2) {
                None => {},
                Some(close) => {
                    assert(s.subrange(pre.len() + open + 2, pre.len() + close) =~= b.subrange(
                        open + 2,
                        close,
                    ));
                    lemma_links_shift(pre, b, close + 2);
                },
            }
        },
    }
}

proof fn lemma_first_pair(a: Seq<char>, p: Seq<char>, c: char, b: Seq<char>)
    requires
        p == seq![c, c],
        !text::contains(a.push(c), p),
    ensures
        text::find(a + p + b, p, 0) == Some(a.len() as int),
{
    let s = a + p + b;
    assert(s.subrange(a.len() as int, a.len() + 2int) =~= p);
    assert forall|j: int| 0 <= j < a.len() implies !text::occurs_at(s, p, j) by {
        if text::occurs_at(s, p, j) {
            assert(s.subrange(j, j + 2) =~= a.push(c).subrange(j, j + 2));
            assert(text::occurs_at(a.push(c), p, j));
        }
    }
    text::lemma_found(s, p, 0, a.len() as int);
}

/// Each pair of double brackets is a link: what stands between them up to a bar, trimmed, is its
/// target, unless that is empty. The links of a text are that of its first pair, then those of the
/// text behind it; a text without a pair has none.
pub proof fn brackets_are_links(before: Seq<char>, inner: Seq<char>, behind: Seq<char>)
    requires
        !text::contains(before.push('['), "[["@),
        !text::contains(inner.push(']'), "]]"@),
    ensures
        ({
            let target = text::trim(text::cut(inner, '|').0);
            let found = wikilinks(before + "[["@ + inner + "]]"@ + behind, 0);
            if target.len() > 0 {
                found == seq![target] + wikilinks(behind, 0)
            } else {
                found == wikilinks(behind, 0)
            }
        }),
        wikilinks(before, 0).len() == 0,
        wikilinks(before + "[["@ + inner, 0).len() == 0,
{
    reveal_strlit("[[");
    reveal_strlit("]]");
    assert("[["@ =~= seq!['[', '[']);
    assert("]]"@ =~= seq![']', ']']);
    let whole = before + "[["@ + inner + "]]"@ + behind;
    let rest = inner + "]]"@ + behind;
    assert(whole =~= before + "[["@ + rest);
    lemma_first_pair(before, "[["@, '[', rest);
    lemma_first_pair(inner, "]]"@, ']', behind);
    let open = before + "[["@;
    assert(whole =~= open + rest);
    lemma_find_shift(open, rest, "]]"@, 0);
    assert(whole.subrange(open.len() as int, (open.len() + inner.len()) as int) =~= inner);
    let done = before + "[["@ + inner + "]]"@;
    assert(whole =~= done + behind);
    lemma_links_shift(done, behind, 0);
    assert forall|j: int| 0 <= j implies !text::occurs_at(before, "[["@, j) by {
        if text::occurs_at(before, "[["@, j) {
            assert(before.subrange(j, j + 2) =~= before.push('[').subrange(j, j + 2));
            assert(text::occurs_at(before.push('['), "[["@, j));
        }
    }
    text::lemma_not_found(before, "[["@, 0);
    let unclosed = before + "[["@ + inner;
    lemma_first_pair(before, "[["@, '[', inner);
    assert(unclosed =~= open + inner);
    lemma_find_shift(open, inner, "]]"@, 0);
    assert forall|j: int| 0 <= j implies !text::occurs_at(inner, "]]"@, j) by {
        if text::occurs_at(inner, "]]"@, j) {
            assert(inner.subrange(j, j + 2) =~= inner.push(']').subrange(j, j + 2));
            assert(text::occurs_at(inner.push(']'), "]]"@, j));
        }
    }
    text::lemma_not_found(inner, "]]"@, 0);
}

proof fn lemma_dashes_close(rest: Seq<char>, tail: Seq<char>)
    requires
        tail.len() == 0 || tail[0] == '\n' || tail[0] == '\r',
    ensures
        closes("---"@ + tail),
        closes(rest) ==> text::starts_with(rest, "---"@),
{
    reveal_strlit("---");
    reveal_strlit("---\n");
    reveal_strlit("---\r\n");
    reveal_strlit("---\r");
    let all = "---"@ + tail;
    if tail.len() == 0 {
        assert(all =~= "---"@);
    } else if tail[0] == '\n' {
        assert(all.subrange(0, 4) =~= "---\n"@);
    } else {
        assert(all.subrange(0, 4) =~= "---\r"@);
    }
    if closes(rest) {
        if text::starts_with(rest, "---\n"@) {
            assert(rest.subrange(0, 4) == "---\n"@);
            assert forall|i: int| 0 <= i < 3 implies rest[i] == '-' by {
                assert(rest.subrange(0, 4)[i] == rest[i]);
            }
        } else if text::starts_with(rest, "---\r"@) {
            assert forall|i: int| 0 <= i < 3 implies rest[i] == '-' by {
                assert(rest.subrange(0, 4)[i] == rest[i]);
            }
        } else if text::starts_with(rest, "---\r\n"@) {
            assert forall|i: int| 0 <= i < 3 implies rest[i] == '-' by {
                assert(rest.subrange(0, 5)[i] == rest[i]);
            }
        }
        assert(rest.subrange(0, 3) =~= "---"@);
    }
}

proof fn lemma_up_to(block: Seq<char>, tail: Seq<char>, from: int)
    requires
        0 <= from <= block.len(),
        !text::contains(block, "\n---"@),
        tail.len() == 0 || tail[0] == '\n' || tail[0] == '\r',
    ensures
        up_to_close(block + "\n---"@ + tail, from) == Some(block),
        up_to_close(block, from) is None,
    decreases block.len() - from,
{
    reveal_strlit("\n---");
    reveal_strlit("---");
    let all = block + "\n---"@ + tail;
    if from < block.len() {
        lemma_up_to(block, tail, from + 1);
        lemma_dashes_close(all.skip(from + 1), tail);
        lemma_dashes_close(block.skip(from + 1), tail);
        if all[from] == '\n' && closes(all.skip(from + 1)) {
            let rest = all.skip(from + 1);
            assert(rest.subrange(0, 3) == "---"@);
            assert(rest.subrange(0, 3)[0] == rest[0] && rest.subrange(0, 3)[1] == rest[1]
                && rest.subrange(0, 3)[2] == rest[2]);
            assert(all[from + 1] == '-' && all[from + 2] == '-' && all[from + 3] == '-');
            assert(all[block.len() as int] == '\n');
            assert(from + 3 < block.len());
            assert(block.subrange(from, from + 4) =~= "\n---"@);
            assert(text::occurs_at(block, "\n---"@, from));
        }
        if block[from] == '\n' && closes(block.skip(from + 1)) {
            let rest = block.skip(from + 1);
            assert(rest.subrange(0, 3) == "---"@);
            assert(rest.subrange(0, 3)[0] == rest[0] && rest.subrange(0, 3)[1] == rest[1]
                && rest.subrange(0, 3)[2] == rest[2]);
            assert(block[from + 1] == '-' && block[from + 2] == '-' && block[from + 3] == '-');
            assert(block.subrange(from, from + 4) =~= "\n---"@);
            assert(text::occurs_at(block, "\n---"@, from));
        }
    } else {
        assert(all[from] == '\n');
        assert(all.skip(from + 1) =~= "---"@ + tail);
        lemma_dashes_close(all, tail);
        assert(all.take(from) =~= block);
    }
}

/// The front matter of a page is what stands between three dashes on its first line and the next
/// line that consists of three dashes, whether lines end with a line feed alone or not. A mark of
/// the encoding in front does not count.
pub proof fn front_matter_stands_between_dashes(
    block: Seq<char>,
    tail: Seq<char>,
    carriage: bool,
    marked: bool,
)
    requires
        !text::contains(block, "\n---"@),
        !text::starts_with(block, "---"@),
        tail.len() == 0 || tail[0] == '\n' || tail[0] == '\r',
    ensures
        ({
            let opening = if carriage {
                "---\r\n"@
            } else {
                "---\n"@
            };
            let mark = if marked {
                seq!['\u{feff}']
            } else {
                Seq::empty()
            };
            &&& front_matter(mark + opening + block + "\n---"@ + tail) == Some(block)
            &&& front_matter(mark + opening + block) is None
        }),
{
    reveal_strlit("---\n");
    reveal_strlit("---\r\n");
    reveal_strlit("\n---");
    reveal_strlit("---");
    let opening = if carriage {
        "---\r\n"@
    } else {
        "---\n"@
    };
    let mark = if marked {
        seq!['\u{feff}']
    } else {
        Seq::empty()
    };
    let rest = block + "\n---"@ + tail;
    let content = mark + opening + block + "\n---"@ + tail;
    let short = mark + opening + block;
    let bare = opening + rest;
    let bare_short = opening + block;
    if marked {
        assert(content.drop_first() =~= bare);
        assert(short.drop_first() =~= bare_short);
    } else {
        assert(content =~= bare);
        assert(short =~= bare_short);
    }
    assert(without_mark(content) == bare);
    assert(without_mark(short) == bare_short);
    lemma_opened(opening, rest, carriage);
    lemma_opened(opening, block, carriage);
    lemma_up_to(block, tail, 0);
    lemma_dashes_close(rest, tail);
    lemma_dashes_close(block, tail);
    if closes(rest) {
        assert(rest[block.len() as int] == '\n');
        assert(rest.subrange(0, 3) == "---"@);
        assert(rest.subrange(0, 3)[0] == rest[0] && rest.subrange(0, 3)[1] == rest[1]
            && rest.subrange(0, 3)[2] == rest[2]);
        assert(block.len() > 2);
        assert(rest.subrange(0, 3) =~= block.subrange(0, 3));
        assert(text::starts_with(block, "---"@));
    }
}

proof fn lemma_opened(opening: Seq<char>, rest: Seq<char>, carriage: bool)
    requires
        opening == (if carriage {
            "---\r\n"@
        } else {
            "---\n"@
        }),
    ensures
        behind(opening + rest, opening) == Some(rest),
        !carriage ==> behind(opening + rest, "---\r\n"@) is None,
{
    reveal_strlit("---\n");
    reveal_strlit("---\r\n");
    let all = opening + rest;
    text::contained_text_stands_between(all, Seq::empty(), opening, rest);
    assert(all.skip(opening.len() as int) =~= rest);
    if !carriage && text::starts_with(all, "---\r\n"@) {
        assert(all.subrange(0, 5)[3] == all[3]);
        assert("---\r\n"@[3] == '\r');
        assert(all[3] == '\n');
    }
}

/// A page that does not begin with three dashes on a line has no front matter.
pub proof fn front_matter_stands_first(content: Seq<char>)
    requires
        content.len() > 0,
        content[0] != '\u{feff}',
        !text::starts_with(content, "---\n"@),
        !text::starts_with(content, "---\r\n"@),
    ensures
        front_matter(content) is None,
        page_type(content) == "other"@,
{
}

/// A line of the front matter that says `type:` gives the type in small letters, whatever blanks
/// stand around it, in quotation marks or without. A line that says anything else gives none.
pub proof fn type_line_is_read(a: Seq<char>, b: Seq<char>, c: Seq<char>, value: Seq<char>)
    requires
        forall|i: int| 0 <= i < a.len() ==> text::is_white_space(#[trigger] a[i]),
        forall|i: int| 0 <= i < b.len() ==> text::is_white_space(#[trigger] b[i]),
        forall|i: int| 0 <= i < c.len() ==> text::is_white_space(#[trigger] c[i]),
        value.len() > 0,
        !text::is_white_space(value[0]) && value[0] != '"' && value[0] != '\'',
        !text::is_white_space(value.last()) && value.last() != '"' && value.last() != '\'',
        text::unicode_lower(value).len() > 0,
    ensures
        type_in_line(a + ("type:"@ + b + value) + c) == Some(text::unicode_lower(value)),
        type_in_line(a + ("type:"@ + b + (seq!['"'] + value + seq!['"'])) + c) == Some(
            text::unicode_lower(value),
        ),
        type_in_line(a + ("type:"@ + b + (seq!['\''] + value + seq!['\''])) + c) == Some(
            text::unicode_lower(value),
        ),
        !text::starts_with(text::trim(value), "type:"@) ==> type_in_line(value) is None,
{
    lemma_type_line(a, b, c, value, value);
    let none = Seq::<char>::empty();
    text::trim_keeps_plain(value, CharClass::Only('"'));
    text::trim_keeps_plain(value, CharClass::Only('\''));
    let double = seq!['"'] + value + seq!['"'];
    text::trim_drops_padding(seq!['"'], value, seq!['"'], CharClass::Only('"'));
    lemma_type_line(a, b, c, value, double);
    let single = seq!['\''] + value + seq!['\''];
    text::trim_drops_padding(seq!['\''], value, seq!['\''], CharClass::Only('\''));
    text::trim_keeps_plain(single, CharClass::Only('"'));
    lemma_type_line(a, b, c, value, single);
}

proof fn lemma_type_line(
    a: Seq<char>,
    b: Seq<char>,
    c: Seq<char>,
    value: Seq<char>,
    given: Seq<char>,
)
    requires
        forall|i: int| 0 <= i < a.len() ==> text::is_white_space(#[trigger] a[i]),
        forall|i: int| 0 <= i < b.len() ==> text::is_white_space(#[trigger] b[i]),
        forall|i: int| 0 <= i < c.len() ==> text::is_white_space(#[trigger] c[i]),
        given.len() > 0,
        !text::is_white_space(given[0]),
        !text::is_white_space(given.last()),
    ensures
        type_in_line(a + ("type:"@ + b + given) + c) == ({
            let small = text::unicode_lower(
                text::trim_both(
                    text::trim_both(given, CharClass::Only('"')),
                    CharClass::Only('\''),
                ),
            );
            if small.len() > 0 {
                Some(small)
            } else {
                None
            }
        }),
{
    reveal_strlit("type:");
    let core = "type:"@ + b + given;
    assert(core[0] == 't');
    assert(core.last() == given.last());
    text::trim_drops_padding(a, core, c, CharClass::White);
    assert(core =~= "type:"@ + (b + given));
    text::contained_text_stands_between(core, Seq::empty(), "type:"@, b + given);
    assert(core.skip("type:"@.len() as int) =~= b + given);
    let none = Seq::<char>::empty();
    assert(b + given =~= b + given + none);
    text::trim_drops_padding(b, given, none, CharClass::White);
}

/// The type of a page is the one that the first line of its front matter gives that gives one, and
/// `other` where none does.
pub proof fn first_type_counts(content: Seq<char>, block: Seq<char>, k: int)
    requires
        front_matter(content) == Some(block),
        0 <= k <= text::split(block, '\n').len(),
        forall|j: int| 0 <= j < k ==> type_in_line(#[trigger] text::split(block, '\n')[j]) is None,
    ensures
        k == text::split(block, '\n').len() ==> page_type(content) == "other"@,
        k < text::split(block, '\n').len() ==> (type_in_line(text::split(block, '\n')[k]) matches Some(
            node_type,
        ) ==> page_type(content) == node_type),
{
    lemma_first_type(text::split(block, '\n'), k);
}

proof fn lemma_first_type(lines: Seq<Seq<char>>, k: int)
    requires
        0 <= k <= lines.len(),
        forall|j: int| 0 <= j < k ==> type_in_line(#[trigger] lines[j]) is None,
    ensures
        k == lines.len() ==> type_in_lines(lines) == "other"@,
        k < lines.len() ==> (type_in_line(lines[k]) matches Some(node_type) ==> type_in_lines(lines)
            == node_type),
    decreases k,
{
    if k > 0 {
        let rest = lines.drop_first();
        assert forall|j: int| 0 <= j < k - 1 implies type_in_line(#[trigger] rest[j]) is None by {
            assert(rest[j] == lines[j + 1]);
        }
        assert(type_in_line(lines[0]) is None);
        lemma_first_type(rest, k - 1);
    }
}

/// A file is a page if it is text, its extension is `md` and its name has a stem. The page has the
/// stem for its id, and the title, the path below the project, the type and the links of the file.
pub proof fn file_makes_page(project_path: Seq<char>, file: GraphFile)
    ensures
        match page_of(project_path, file) {
            Some((id, page)) => {
                &&& paths::byte_extension(file.path@) == Some("md"@)
                &&& paths::byte_stem(file.path@) == Some(id)
                &&& id.len() > 0
                &&& page.title == file.title@
                &&& page.path == paths::shown_path(project_path, file.path@)
                &&& file.content matches Some(content) && page.node_type == page_type(content@)
                    && page.links == wikilinks(content@, 0)
            },
            None => {
                ||| paths::byte_extension(file.path@) != Some("md"@)
                ||| file.content is None
                ||| paths::byte_stem(file.path@) is None
                ||| paths::byte_stem(file.path@)->0.len() == 0
            },
        },
{
}

/// Every file that is a page is in the wiki under its id, unless a later file has the same id; and
/// nothing else is.
pub proof fn pages_come_from_files(project_path: Seq<char>, files: Seq<GraphFile>, id: Seq<char>)
    ensures
        ({
            let pages = pages_of(project_path, files);
            &&& pages.dom().contains(id) ==> exists|k: int|
                0 <= k < files.len() && page_of(project_path, #[trigger] files[k]) == Some(
                    (id, pages[id]),
                ) && forall|j: int|
                    k < j < files.len() ==> !(page_of(project_path, #[trigger] files[j]) matches Some(
                        later,
                    ) && later.0 == id)
            &&& forall|k: int|
                0 <= k < files.len() && (page_of(project_path, #[trigger] files[k]) matches Some(
                    page,
                ) && page.0 == id) ==> pages.dom().contains(id)
        }),
    decreases files.len(),
{
    if files.len() > 0 {
        let front = files.drop_last();
        let pages = pages_of(project_path, files);
        let last = files.len() - 1;
        pages_come_from_files(project_path, front, id);
        assert(files[last] == files.last());
        if pages.dom().contains(id) {
            if page_of(project_path, files.last()) matches Some(page) && page.0 == id {
                assert(page_of(project_path, files[last]) == Some((id, pages[id])));
            } else {
                let k = choose|k: int|
                    0 <= k < front.len() && page_of(project_path, #[trigger] front[k]) == Some(
                        (id, pages_of(project_path, front)[id]),
                    ) && forall|j: int|
                        k < j < front.len() ==> !(page_of(
                            project_path,
                            #[trigger] front[j],
                        ) matches Some(later) && later.0 == id);
                assert(files[k] == front[k]);
                assert forall|j: int| k < j < files.len() implies !(page_of(
                    project_path,
                    #[trigger] files[j],
                ) matches Some(later) && later.0 == id) by {
                    if j < last {
                        assert(files[j] == front[j]);
                    }
                }
            }
        }
        assert forall|k: int|
            0 <= k < files.len() && (page_of(project_path, #[trigger] files[k]) matches Some(page)
                && page.0 == id) implies pages.dom().contains(id) by {
            if k < last {
                assert(files[k] == front[k]);
            }
        }
    }
}

/// Whether a wiki link of the page `source` leads to the page `target`.
pub open spec fn links_to(
    pages: Map<Seq<char>, PageModel>,
    ids: Seq<Seq<char>>,
    source: Seq<char>,
    target: Seq<char>,
) -> bool {
    exists|k: int|
        0 <= k < pages[source].links.len() && link_target(
            #[trigger] pages[source].links[k],
            ids,
        ) == Some(target)
}

proof fn lemma_links_from(
    edges: Seq<(Seq<char>, Seq<char>)>,
    source: Seq<char>,
    pages: Map<Seq<char>, PageModel>,
    n: int,
    ids: Seq<Seq<char>>,
    i: int,
)
    requires
        0 <= n <= pages[source].links.len(),
        0 <= i < with_links(edges, source, pages[source].links.take(n), ids).len(),
    ensures
        ({
            let all = with_links(edges, source, pages[source].links.take(n), ids);
            ||| i < edges.len() && all[i] == edges[i]
            ||| all[i].0 == source && links_to(pages, ids, source, all[i].1)
        }),
    decreases n,
{
    let links = pages[source].links;
    if n > 0 {
        let before = with_links(edges, source, links.take(n - 1), ids);
        assert(links.take(n).drop_last() =~= links.take(n - 1));
        assert(links.take(n).last() == links[n - 1]);
        if i < before.len() {
            lemma_links_from(edges, source, pages, n - 1, ids, i);
        } else {
            assert(link_target(pages[source].links[n - 1], ids) is Some);
        }
    } else {
        assert(links.take(0) =~= Seq::empty());
    }
}

proof fn lemma_edges_linked(
    sources: Seq<Seq<char>>,
    pages: Map<Seq<char>, PageModel>,
    ids: Seq<Seq<char>>,
    i: int,
)
    requires
        0 <= i < edges_from(sources, pages, ids).len(),
    ensures
        ({
            let edge = edges_from(sources, pages, ids)[i];
            sources.contains(edge.0) && links_to(pages, ids, edge.0, edge.1)
        }),
    decreases sources.len(),
{
    if sources.len() > 0 {
        let before = edges_from(sources.drop_last(), pages, ids);
        let source = sources.last();
        let links = pages[source].links;
        assert(links.take(links.len() as int) =~= links);
        lemma_links_from(before, source, pages, links.len() as int, ids, i);
        assert(sources[sources.len() - 1] == source);
        let edge = edges_from(sources, pages, ids)[i];
        if i < before.len() && edge == before[i] {
            lemma_edges_linked(sources.drop_last(), pages, ids, i);
            let k = sources.drop_last().index_of(edge.0);
            assert(sources[k] == edge.0);
        }
    }
}

/// No link of the graph is made up: each goes from a page to one that a wiki link in its text
/// leads to.
pub proof fn edges_have_links(pages: Map<Seq<char>, PageModel>, i: int)
    requires
        0 <= i < all_edges(pages).len(),
    ensures
        ({
            let ids = order::sorted(pages.dom());
            let edge = all_edges(pages)[i];
            ids.contains(edge.0) && links_to(pages, ids, edge.0, edge.1)
        }),
{
    let ids = order::sorted(pages.dom());
    lemma_edges_linked(ids, pages, ids, i);
}

/// The name of a link is the same from either end, and holds both ids with two colons between.
pub proof fn link_name_is_shared(a: Seq<char>, b: Seq<char>)
    ensures
        link_name(a, b) == link_name(b, a),
        link_name(a, b) == a + "::"@ + b || link_name(a, b) == b + "::"@ + a,
{
    order::text_order_total(a, b);
}

/// A page has as many links as there are links with it at one end.
pub proof fn degree_counts_links(edges: Seq<(Seq<char>, Seq<char>)>, id: Seq<char>)
    ensures
        degree(edges, id) == edges.filter(
            |edge: (Seq<char>, Seq<char>)| edge.0 == id || edge.1 == id,
        ).len(),
    decreases edges.len(),
{
    let touches = |edge: (Seq<char>, Seq<char>)| edge.0 == id || edge.1 == id;
    if edges.len() == 0 {
        assert(edges.filter(touches).len() == 0) by {
            reveal(Seq::filter);
        }
    } else {
        degree_counts_links(edges.drop_last(), id);
        text::lemma_filter_push(edges.drop_last(), edges.last(), touches);
        assert(edges.drop_last().push(edges.last()) =~= edges);
    }
}

proof fn lemma_nodes_of(
    ids: Seq<Seq<char>>,
    pages: Map<Seq<char>, PageModel>,
    edges: Seq<(Seq<char>, Seq<char>)>,
)
    ensures
        nodes_of(ids, pages, edges).map_values(|node: NodeModel| node.id) == ids.filter(
            |id: Seq<char>| pages[id].node_type != "query"@,
        ),
        forall|i: int|
            0 <= i < nodes_of(ids, pages, edges).len() ==> {
                let node = #[trigger] nodes_of(ids, pages, edges)[i];
                &&& node.label == pages[node.id].title
                &&& node.node_type == pages[node.id].node_type
                &&& node.path == pages[node.id].path
                &&& node.link_count == degree(edges, node.id)
            },
    decreases ids.len(),
{
    let shown = |id: Seq<char>| pages[id].node_type != "query"@;
    let all = nodes_of(ids, pages, edges);
    if ids.len() == 0 {
        assert(ids.filter(shown).len() == 0) by {
            reveal(Seq::filter);
        }
        assert(all.map_values(|node: NodeModel| node.id) =~= ids.filter(shown));
    } else {
        let front = ids.drop_last();
        let before = nodes_of(front, pages, edges);
        lemma_nodes_of(front, pages, edges);
        text::lemma_filter_push(front, ids.last(), shown);
        assert(front.push(ids.last()) =~= ids);
        if shown(ids.last()) {
            assert(all.map_values(|node: NodeModel| node.id) =~= before.map_values(
                |node: NodeModel| node.id,
            ).push(ids.last()));
        }
        assert forall|i: int| 0 <= i < all.len() implies {
            let node = #[trigger] all[i];
            &&& node.label == pages[node.id].title
            &&& node.node_type == pages[node.id].node_type
            &&& node.path == pages[node.id].path
            &&& node.link_count == degree(edges, node.id)
        } by {
            if i < before.len() {
                assert(all[i] == before[i]);
            }
        }
    }
}

/// The graph shows every page but those of the type `query`, in the order of their ids, each with
/// its own title, type and path and as many links as it has.
pub proof fn pages_are_shown(pages: Map<Seq<char>, PageModel>)
    ensures
        all_nodes(pages).map_values(|node: NodeModel| node.id) == order::sorted(
            pages.dom(),
        ).filter(|id: Seq<char>| pages[id].node_type != "query"@),
        forall|i: int|
            0 <= i < all_nodes(pages).len() ==> {
                let node = #[trigger] all_nodes(pages)[i];
                &&& node.label == pages[node.id].title
                &&& node.node_type == pages[node.id].node_type
                &&& node.path == pages[node.id].path
                &&& node.link_count == degree(all_edges(pages), node.id)
            },
{
    lemma_nodes_of(order::sorted(pages.dom()), pages, all_edges(pages));
}

/// Every link of the graph weighs one, in the bits of a binary64 number.
pub proof fn links_weigh_one(edges: Seq<ApiGraphEdge>, i: int)
    requires
        weigh_one(edges),
        0 <= i < edges.len(),
    ensures
        edges[i].weight == 0x3ff0_0000_0000_0000,
{
}

/// A page is asked for by a text that its id or its label holds, in small letters, and by its
/// type; what the request does not say leaves no page out.
pub proof fn wanted_pages_match(
    node: ApiGraphNode,
    a: Seq<char>,
    q: Seq<char>,
    b: Seq<char>,
    node_type: Seq<char>,
)
    ensures
        is_wanted(None, None)(node),
        text::unicode_lower(node.id@) == a + q + b ==> is_wanted(Some(q), None)(node),
        text::unicode_lower(node.label@) == a + q + b ==> is_wanted(Some(q), None)(node),
        !text::contains(text::unicode_lower(node.id@), q) && !text::contains(
            text::unicode_lower(node.label@),
            q,
        ) ==> !is_wanted(Some(q), None)(node),
        is_wanted(None, Some(node_type))(node) == (node.node_type@ == node_type),
        is_wanted(Some(q), Some(node_type))(node) == (is_wanted(Some(q), None)(node) && is_wanted(
            None,
            Some(node_type),
        )(node)),
{
    text::contained_text_stands_between(a + q + b, a, q, b);
}

/// A request is answered with 200 pages at most where it does not say, and otherwise with as many
/// as it says, but at least 1 and at most 1000.
pub proof fn limit_is_as_asked(query: Seq<char>, n: nat)
    requires
        n <= usize::MAX,
    ensures
        ({
            let asked = url::parameter(url::query_parameters(query), "limit"@);
            &&& asked is None ==> node_limit(query) == 200
            &&& asked == Some(text::decimal(n)) && 1 <= n <= 1000 ==> node_limit(query) == n
            &&& asked == Some(text::decimal(n)) && n == 0 ==> node_limit(query) == 1
            &&& asked == Some(text::decimal(n)) && n > 1000 ==> node_limit(query) == 1000
            &&& asked is Some && text::parse_size(asked->0) is None ==> node_limit(query) == 200
        }),
{
    text::numeral_is_read(n, Seq::empty());
}

/// Every page that is asked for is shown, unless more are asked for than the limit allows; and
/// every link between two pages that are shown is shown.
pub proof fn wanted_pages_are_shown(
    query: Seq<char>,
    nodes: Seq<ApiGraphNode>,
    edges: Seq<ApiGraphEdge>,
    k: int,
)
    requires
        0 <= k < edges.len(),
    ensures
        ({
            let q = url::parameter(url::query_parameters(query), "q"@);
            let node_type = url::parameter(url::query_parameters(query), "nodeType"@);
            let wanted = nodes.filter(
                is_wanted(
                    match q {
                        Some(q) => Some(text::unicode_lower(q)),
                        None => None,
                    },
                    match node_type {
                        Some(node_type) => Some(text::unicode_lower(node_type)),
                        None => None,
                    },
                ),
            );
            let shown = answered_nodes(query, nodes);
            &&& wanted.len() <= node_limit(query) ==> shown.to_multiset() == wanted.to_multiset()
            &&& wanted.len() > node_limit(query) ==> shown.len() == node_limit(query)
            &&& shown.map_values(|n: ApiGraphNode| n.id@).contains(edges[k].source@)
                && shown.map_values(|n: ApiGraphNode| n.id@).contains(edges[k].target@)
                ==> edges.filter(is_between(shown)).contains(edges[k])
        }),
{
    let wanted = nodes.filter(
        is_wanted(small_parameter(query, "q"@), small_parameter(query, "nodeType"@)),
    );
    let shown = answered_nodes(query, nodes);
    order::ranked_keeps_items(wanted);
    answer_is_connected(query, nodes, edges);
    let ids = shown.map_values(|n: ApiGraphNode| n.id@);
    if ids.contains(edges[k].source@) && ids.contains(edges[k].target@) {
        let i = ids.index_of(edges[k].source@);
        let j = ids.index_of(edges[k].target@);
        assert(shown[i].id@ == edges[k].source@);
        assert(shown[j].id@ == edges[k].target@);
        assert(is_between(shown)(edges[k]));
        edges.lemma_filter_contains(is_between(shown), k);
    }
}

/// A page of the graph is written with its own fields.
pub proof fn node_is_written(node: NodeModel)
    ensures
        ({
            let value = node_model(node);
            &&& value->Object_0.len() == 5
            &&& value.field("id"@) == Some(JsonModel::Text(node.id))
            &&& value.field("label"@) == Some(JsonModel::Text(node.label))
            &&& value.field("nodeType"@) == Some(JsonModel::Text(node.node_type))
            &&& value.field("path"@) == Some(JsonModel::Text(node.path))
            &&& value.field("linkCount"@) == Some(JsonModel::UInt(node.link_count))
        }),
{
    reveal_strlit("id");
    reveal_strlit("label");
    reveal_strlit("nodeType");
    reveal_strlit("path");
    reveal_strlit("linkCount");
    assert("id"@.len() == 2 && "label"@.len() == 5 && "nodeType"@.len() == 8);
    assert("path"@.len() == 4 && "linkCount"@.len() == 9);
    let fields = (node_model(node))->Object_0;
    assert(fields[0] == ("id"@, JsonModel::Text(node.id)));
    assert(fields[1] == ("label"@, JsonModel::Text(node.label)));
    assert(fields[2] == ("nodeType"@, JsonModel::Text(node.node_type)));
    assert(fields[3] == ("path"@, JsonModel::Text(node.path)));
    assert(fields[4] == ("linkCount"@, JsonModel::UInt(node.link_count)));
    json::each_field_is_read(fields);
}

/// A link of the graph is written with its two ends and its weight.
pub proof fn edge_is_written(edge: ApiGraphEdge)
    ensures
        ({
            let value = edge_model(edge);
            &&& value->Object_0.len() == 3
            &&& value.field("source"@) == Some(JsonModel::Text(edge.source@))
            &&& value.field("target"@) == Some(JsonModel::Text(edge.target@))
            &&& value.field("weight"@) == Some(JsonModel::Float(edge.weight))
        }),
{
    reveal_strlit("source");
    reveal_strlit("target");
    reveal_strlit("weight");
    assert("source"@.len() == 6 && "target"@.len() == 6 && "weight"@.len() == 6);
    assert("source"@[0] == 's' && "target"@[0] == 't' && "weight"@[0] == 'w');
    let fields = (edge_model(edge))->Object_0;
    assert(fields[0] == ("source"@, JsonModel::Text(edge.source@)));
    assert(fields[1] == ("target"@, JsonModel::Text(edge.target@)));
    assert(fields[2] == ("weight"@, JsonModel::Float(edge.weight)));
    json::each_field_is_read(fields);
}

/// A graph is answered with the pages that are shown and the links between them, in their order.
pub proof fn graph_is_written(project_id: Seq<char>, query: Seq<char>, nodes: Seq<ApiGraphNode>, edges: Seq<ApiGraphEdge>)
    ensures
        ({
            let value = graph_response(project_id, query, nodes, edges).body;
            &&& value->Object_0.len() == 4
            &&& value.field("ok"@) == Some(JsonModel::Bool(true))
            &&& value.field("projectId"@) == Some(JsonModel::Text(project_id))
            &&& value.field("nodes"@) == Some(
                JsonModel::Array(
                    answered_nodes(query, nodes).map_values(|node: ApiGraphNode| node_model(node@)),
                ),
            )
            &&& value.field("edges"@) == Some(
                JsonModel::Array(
                    edges.filter(is_between(answered_nodes(query, nodes))).map_values(
                        |e: ApiGraphEdge| edge_model(e),
                    ),
                ),
            )
        }),
        graph_response(project_id, query, nodes, edges).status == 200,
{
    reveal_strlit("ok");
    reveal_strlit("projectId");
    reveal_strlit("nodes");
    reveal_strlit("edges");
    assert("ok"@.len() == 2 && "projectId"@.len() == 9 && "nodes"@.len() == 5);
    assert("edges"@.len() == 5 && "nodes"@[0] == 'n' && "edges"@[0] == 'e');
    let fields = (graph_response(project_id, query, nodes, edges).body)->Object_0;
    assert(fields[0] == ("ok"@, JsonModel::Bool(true)));
    assert(fields[1] == ("projectId"@, JsonModel::Text(project_id)));
    assert(fields[2] == (
        "nodes"@,
        JsonModel::Array(
                    answered_nodes(query, nodes).map_values(|node: ApiGraphNode| node_model(node@)),
                ),
    ));
    assert(fields[3] == (
        "edges"@,
        JsonModel::Array(
                    edges.filter(is_between(answered_nodes(query, nodes))).map_values(
                        |e: ApiGraphEdge| edge_model(e),
                    ),
                ),
    ));
    json::each_field_is_read(fields);
}

/// The pages and links of a graph are taken for what they hold.
pub proof fn graph_is_taken_as_it_is(nodes: Seq<ApiGraphNode>, edges: Seq<ApiGraphEdge>, i: int)
    ensures
        node_views(nodes).len() == nodes.len(),
        0 <= i < nodes.len() ==> ({
            let node = node_views(nodes)[i];
            &&& node.id == nodes[i].id@
            &&& node.label == nodes[i].label@
            &&& node.node_type == nodes[i].node_type@
            &&& node.path == nodes[i].path@
            &&& node.link_count == nodes[i].link_count
        }),
        edge_views(edges).len() == edges.len(),
        0 <= i < edges.len() ==> edge_views(edges)[i] == (edges[i].source@, edges[i].target@),
{
}

proof fn lemma_new_unnamed(
    edges: Seq<(Seq<char>, Seq<char>)>,
    source: Seq<char>,
    links: Seq<Seq<char>>,
    ids: Seq<Seq<char>>,
    i: int,
)
    requires
        edges.len() <= i < with_links(edges, source, links, ids).len(),
    ensures
        ({
            let edge = with_links(edges, source, links, ids)[i];
            edge.0 == source && !is_named(edges, link_name(edge.0, edge.1))
        }),
        edges.len() <= with_links(edges, source, links, ids).len(),
    decreases links.len(),
{
    if links.len() > 0 {
        let before = with_links(edges, source, links.drop_last(), ids);
        lemma_links_grow(edges, source, links.drop_last(), ids);
        if i < before.len() {
            lemma_new_unnamed(edges, source, links.drop_last(), ids, i);
        } else {
            let edge = with_links(edges, source, links, ids)[i];
            let name = link_name(edge.0, edge.1);
            if is_named(edges, name) {
                lemma_name_kept(edges, source, links.drop_last(), ids, name);
            }
        }
    }
}

proof fn lemma_links_grow(
    edges: Seq<(Seq<char>, Seq<char>)>,
    source: Seq<char>,
    links: Seq<Seq<char>>,
    ids: Seq<Seq<char>>,
)
    ensures
        edges.len() <= with_links(edges, source, links, ids).len(),
        with_links(edges, source, links, ids).take(edges.len() as int) == edges,
    decreases links.len(),
{
    let all = with_links(edges, source, links, ids);
    if links.len() > 0 {
        lemma_links_grow(edges, source, links.drop_last(), ids);
        let before = with_links(edges, source, links.drop_last(), ids);
        assert(all.take(edges.len() as int) =~= before.take(edges.len() as int));
    } else {
        assert(all.take(edges.len() as int) =~= edges);
    }
}

proof fn lemma_first_source(
    sources: Seq<Seq<char>>,
    pages: Map<Seq<char>, PageModel>,
    ids: Seq<Seq<char>>,
    i: int,
    at: int,
)
    requires
        order::ascending(sources),
        0 <= i < edges_from(sources, pages, ids).len(),
        0 <= at < sources.len(),
        sources[at] == edges_from(sources, pages, ids)[i].1,
        links_to(
            pages,
            ids,
            edges_from(sources, pages, ids)[i].1,
            edges_from(sources, pages, ids)[i].0,
        ),
        edges_from(sources, pages, ids)[i].0 != edges_from(sources, pages, ids)[i].1,
    ensures
        order::text_before(
            edges_from(sources, pages, ids)[i].0,
            edges_from(sources, pages, ids)[i].1,
        ),
    decreases sources.len(),
{
    let front = sources.drop_last();
    let last = sources.len() - 1;
    let source = sources.last();
    let before = edges_from(front, pages, ids);
    let links = pages[source].links;
    let edge = edges_from(sources, pages, ids)[i];
    lemma_links_grow(before, source, links, ids);
    assert(order::ascending(front)) by {
        assert forall|a: int, b: int| 0 <= a < b < front.len() implies order::text_before(
            #[trigger] front[a],
            #[trigger] front[b],
        ) by {
            assert(front[a] == sources[a] && front[b] == sources[b]);
        }
    }
    if i < before.len() {
        assert(edges_from(sources, pages, ids).take(before.len() as int)[i] == before[i]);
        if at < last {
            assert(front[at] == sources[at]);
            lemma_first_source(front, pages, ids, i, at);
        } else {
            lemma_edges_linked(front, pages, ids, i);
            let k = front.index_of(edge.0);
            assert(sources[k] == edge.0);
            assert(order::text_before(sources[k], sources[last]));
        }
    } else {
        lemma_new_unnamed(before, source, links, ids, i);
        if at < last {
            let k = choose|k: int|
                0 <= k < pages[edge.1].links.len() && link_target(
                    #[trigger] pages[edge.1].links[k],
                    ids,
                ) == Some(edge.0);
            assert(front[at] == edge.1);
            lemma_edge_named(front, pages, ids, at, k);
            link_name_is_shared(edge.0, edge.1);
        }
    }
}

proof fn lemma_sources_ascend(
    sources: Seq<Seq<char>>,
    pages: Map<Seq<char>, PageModel>,
    ids: Seq<Seq<char>>,
    i: int,
    j: int,
)
    requires
        order::ascending(sources),
        0 <= i < j < edges_from(sources, pages, ids).len(),
    ensures
        !order::text_before(
            edges_from(sources, pages, ids)[j].0,
            edges_from(sources, pages, ids)[i].0,
        ),
    decreases sources.len(),
{
    if sources.len() > 0 {
        let front = sources.drop_last();
        let last = sources.len() - 1;
        let source = sources.last();
        let before = edges_from(front, pages, ids);
        let links = pages[source].links;
        let all = edges_from(sources, pages, ids);
        lemma_links_grow(before, source, links, ids);
        assert forall|a: int, b: int| 0 <= a < b < front.len() implies order::text_before(
            #[trigger] front[a],
            #[trigger] front[b],
        ) by {
            assert(front[a] == sources[a] && front[b] == sources[b]);
        }
        if j < before.len() {
            assert(all.take(before.len() as int)[i] == before[i]);
            assert(all.take(before.len() as int)[j] == before[j]);
            lemma_sources_ascend(front, pages, ids, i, j);
        } else {
            lemma_new_unnamed(before, source, links, ids, j);
            if i < before.len() {
                assert(all.take(before.len() as int)[i] == before[i]);
                lemma_edges_linked(front, pages, ids, i);
                let k = front.index_of(all[i].0);
                assert(sources[k] == all[i].0);
                assert(order::text_before(sources[k], sources[last]));
                order::text_order_total(sources[k], sources[last]);
            } else {
                lemma_new_unnamed(before, source, links, ids, i);
                order::text_order_total(source, source);
            }
        }
    }
}

/// The links of a graph go by the ids of the pages that they come from; of two pages that link to
/// each other the one whose id comes before has the link.
pub proof fn links_go_by_source(pages: Map<Seq<char>, PageModel>, i: int, j: int)
    requires
        pages.dom().finite(),
        0 <= i < j < all_edges(pages).len(),
    ensures
        ({
            let ids = order::sorted(pages.dom());
            let edges = all_edges(pages);
            &&& !order::text_before(edges[j].0, edges[i].0)
            &&& links_to(pages, ids, edges[j].1, edges[j].0) ==> order::text_before(
                edges[j].0,
                edges[j].1,
            )
            &&& links_to(pages, ids, edges[i].1, edges[i].0) ==> order::text_before(
                edges[i].0,
                edges[i].1,
            )
        }),
{
    let ids = order::sorted(pages.dom());
    let edges = all_edges(pages);
    order::sorted_of_finite(pages.dom());
    lemma_sources_ascend(ids, pages, ids, i, j);
    graph_is_sound(pages);
    let a = ids.index_of(edges[i].1);
    let b = ids.index_of(edges[j].1);
    assert(ids.contains(edges[i].1) && ids.contains(edges[j].1));
    if links_to(pages, ids, edges[i].1, edges[i].0) {
        lemma_first_source(ids, pages, ids, i, a);
    }
    if links_to(pages, ids, edges[j].1, edges[j].0) {
        lemma_first_source(ids, pages, ids, j, b);
    }
}

} // verus!

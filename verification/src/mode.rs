//! Retrieval modes: what part of a project a question is answered from.
use crate::text;
use vstd::prelude::*;
use vstd::string::*;

verus! {

/// What part of a project is searched: the wiki, the raw sources, or both.
#[derive(Clone, Copy, Debug, PartialEq, Eq, Structural)]
pub enum RetrievalMode {
    Wiki,
    SourcesOnly,
    Hybrid,
}

/// The mode that a name stands for, once trimmed and in small letters.
pub open spec fn named_mode(name: Seq<char>) -> RetrievalMode {
    if name == "sources_only"@ || name == "faithful"@ || name == "sources"@ {
        RetrievalMode::SourcesOnly
    } else if name == "hybrid"@ || name == "all"@ {
        RetrievalMode::Hybrid
    } else {
        RetrievalMode::Wiki
    }
}

/// The mode that a request asks for; the wiki where it asks for none or for an unknown one.
pub open spec fn requested_mode(raw: Option<Seq<char>>) -> RetrievalMode {
    match raw {
        Some(raw) => named_mode(text::ascii_lower(text::trim(raw))),
        None => RetrievalMode::Wiki,
    }
}

/// Reads the mode that a request asks for.
pub fn parse_retrieval_mode(raw: Option<&str>) -> (r: RetrievalMode)
    ensures
        r == requested_mode(text::optional_view(raw)),
{
    match raw {
        Some(raw) => {
            let name = text::ascii_lowered(text::trimmed(raw).as_str());
            let name = name.as_str();
            if text::same_text(name, "sources_only") || text::same_text(name, "faithful")
                || text::same_text(name, "sources") {
                RetrievalMode::SourcesOnly
            } else if text::same_text(name, "hybrid") || text::same_text(name, "all") {
                RetrievalMode::Hybrid
            } else {
                RetrievalMode::Wiki
            }
        },
        None => RetrievalMode::Wiki,
    }
}

/// The name that a mode is reported under.
pub open spec fn label(mode: RetrievalMode) -> Seq<char> {
    match mode {
        RetrievalMode::Wiki => "wiki"@,
        RetrievalMode::SourcesOnly => "sources_only"@,
        RetrievalMode::Hybrid => "hybrid"@,
    }
}

/// Tells the name that a mode is reported under.
pub fn retrieval_mode_label(mode: RetrievalMode) -> (r: &'static str)
    ensures
        r@ == label(mode),
{
    match mode {
        RetrievalMode::Wiki => "wiki",
        RetrievalMode::SourcesOnly => "sources_only",
        RetrievalMode::Hybrid => "hybrid",
    }
}

/// The directories of a project that a mode searches.
pub open spec fn mode_roots(mode: RetrievalMode) -> Seq<Seq<char>> {
    match mode {
        RetrievalMode::Wiki => Seq::empty().push("wiki"@),
        RetrievalMode::SourcesOnly => Seq::empty().push("raw/sources"@),
        RetrievalMode::Hybrid => Seq::empty().push("wiki"@).push("raw/sources"@),
    }
}

/// Tells the directories of a project that a mode searches.
pub fn scan_roots_for_mode(mode: RetrievalMode) -> (r: Vec<String>)
    ensures
        text::views(r@) == mode_roots(mode),
{
    let r = match mode {
        RetrievalMode::Wiki => vec!["wiki".to_owned()],
        RetrievalMode::SourcesOnly => vec!["raw/sources".to_owned()],
        RetrievalMode::Hybrid => vec!["wiki".to_owned(), "raw/sources".to_owned()],
    };
    assert(text::views(r@) =~= mode_roots(mode));
    r
}

proof fn lemma_small_name(s: Seq<char>)
    requires
        s.len() > 0,
        forall|i: int|
            0 <= i < s.len() ==> ('a' <= #[trigger] s[i] && s[i] <= 'z') || s[i] == '_',
    ensures
        text::ascii_lower(text::trim(s)) == s,
{
    assert(!text::is_white_space(s[0]));
    assert(!text::is_white_space(s.last()));
    assert(text::trim(s) == s);
    assert(text::ascii_lower(s) =~= s);
}

/// The name that a mode is reported under asks for that mode.
pub proof fn label_names_mode(mode: RetrievalMode)
    ensures
        requested_mode(Some(label(mode))) == mode,
{
    reveal_strlit("wiki");
    reveal_strlit("sources_only");
    reveal_strlit("faithful");
    reveal_strlit("sources");
    reveal_strlit("hybrid");
    reveal_strlit("all");
    let name = label(mode);
    lemma_small_name(name);
    assert("wiki"@.len() == 4 && "sources_only"@.len() == 12 && "hybrid"@.len() == 6);
}

proof fn lemma_trim_start_lower(s: Seq<char>)
    ensures
        text::trim_start(text::ascii_lower(s), text::CharClass::White) == text::ascii_lower(
            text::trim_start(s, text::CharClass::White),
        ),
    decreases s.len(),
{
    let small = text::ascii_lower(s);
    if s.len() > 0 {
        assert(small[0] == text::ascii_lower_char(s[0]));
        assert(small.drop_first() =~= text::ascii_lower(s.drop_first()));
        lemma_trim_start_lower(s.drop_first());
    }
}

proof fn lemma_trim_end_lower(s: Seq<char>)
    ensures
        text::trim_end(text::ascii_lower(s), text::CharClass::White) == text::ascii_lower(
            text::trim_end(s, text::CharClass::White),
        ),
    decreases s.len(),
{
    let small = text::ascii_lower(s);
    if s.len() > 0 {
        assert(small.last() == text::ascii_lower_char(s.last()));
        assert(small.drop_last() =~= text::ascii_lower(s.drop_last()));
        lemma_trim_end_lower(s.drop_last());
    }
}

/// The case of ASCII letters does not count in the name of a mode.
pub proof fn mode_ignores_case(a: Seq<char>, b: Seq<char>)
    requires
        text::ascii_lower(a) == text::ascii_lower(b),
    ensures
        requested_mode(Some(a)) == requested_mode(Some(b)),
{
    lemma_trim_start_lower(a);
    lemma_trim_start_lower(b);
    lemma_trim_end_lower(text::trim_start(a, text::CharClass::White));
    lemma_trim_end_lower(text::trim_start(b, text::CharClass::White));
}

/// The sources are asked for by three names, both parts by two, and the wiki by any other; blanks
/// around a name and the case of its letters do not count.
pub proof fn modes_are_asked_by_name(a: Seq<char>, name: Seq<char>, b: Seq<char>)
    requires
        forall|i: int| 0 <= i < a.len() ==> text::is_white_space(#[trigger] a[i]),
        forall|i: int| 0 <= i < b.len() ==> text::is_white_space(#[trigger] b[i]),
        name.len() > 0 ==> !text::is_white_space(name[0]) && !text::is_white_space(name.last()),
    ensures
        ({
            let mode = requested_mode(Some(a + name + b));
            let small = text::ascii_lower(name);
            &&& small == "sources_only"@ || small == "faithful"@ || small == "sources"@ ==> mode
                == RetrievalMode::SourcesOnly
            &&& small == "hybrid"@ || small == "all"@ ==> mode == RetrievalMode::Hybrid
            &&& mode == RetrievalMode::SourcesOnly ==> small == "sources_only"@ || small
                == "faithful"@ || small == "sources"@
            &&& mode == RetrievalMode::Hybrid ==> small == "hybrid"@ || small == "all"@
        }),
        requested_mode(None) == RetrievalMode::Wiki,
{
    reveal_strlit("sources_only");
    reveal_strlit("faithful");
    reveal_strlit("sources");
    reveal_strlit("hybrid");
    reveal_strlit("all");
    assert("sources_only"@.len() == 12 && "faithful"@.len() == 8 && "sources"@.len() == 7);
    assert("hybrid"@.len() == 6 && "all"@.len() == 3);
    text::trim_drops_padding(a, name, b, text::CharClass::White);
}

/// Each mode is reported under its name and searches its own directories: the wiki `wiki`, the
/// sources `raw/sources`, and the hybrid mode both.
pub proof fn modes_have_roots(mode: RetrievalMode)
    ensures
        label(RetrievalMode::Wiki) == "wiki"@,
        label(RetrievalMode::SourcesOnly) == "sources_only"@,
        label(RetrievalMode::Hybrid) == "hybrid"@,
        mode_roots(RetrievalMode::Wiki) == seq!["wiki"@],
        mode_roots(RetrievalMode::SourcesOnly) == seq!["raw/sources"@],
        mode_roots(RetrievalMode::Hybrid) == seq!["wiki"@, "raw/sources"@],
        mode_roots(RetrievalMode::Hybrid) == mode_roots(RetrievalMode::Wiki) + mode_roots(
            RetrievalMode::SourcesOnly,
        ),
{
    assert(mode_roots(RetrievalMode::Wiki) =~= seq!["wiki"@]);
    assert(mode_roots(RetrievalMode::SourcesOnly) =~= seq!["raw/sources"@]);
    assert(mode_roots(RetrievalMode::Hybrid) =~= seq!["wiki"@, "raw/sources"@]);
}

} // verus!

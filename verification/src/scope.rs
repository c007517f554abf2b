//! Explicit source scopes: the allowlist of a request, the part of it that a mode searches, and
//! the check of its paths against the file system.
use crate::mode;
use crate::mode::RetrievalMode;
use crate::order::TextSet;
use crate::paths;
use crate::text;
use vstd::prelude::*;
use vstd::string::*;

verus! {

/// How many paths an allowlist may hold.
pub const MAX_ALLOWED_SOURCE_PATHS: usize = 256;

/// How many characters a path of an allowlist may have.
pub const MAX_ALLOWED_SOURCE_PATH_CHARS: usize = 1024;

/// Why the first piece of a path that is not a plain name is refused.
pub open spec fn refused_piece(pieces: Seq<Seq<char>>) -> Option<Seq<char>>
    decreases pieces.len(),
{
    if pieces.len() == 0 {
        None
    } else if pieces[0].len() == 0 {
        Some("allowed source path contains an empty component"@)
    } else if pieces[0] == "."@ || pieces[0] == ".."@ {
        Some("allowed source path contains traversal components"@)
    } else {
        refused_piece(pieces.drop_first())
    }
}

/// Whether a text holds a control character.
pub open spec fn has_control(p: Seq<char>) -> bool {
    exists|i: int| 0 <= i < p.len() && text::is_control_code(#[trigger] p[i])
}

/// The path of an allowlist with forward separators, or why it is refused.
pub open spec fn source_path(raw: Seq<char>) -> Result<Seq<char>, Seq<char>> {
    let p = text::replace(raw, '\\', '/');
    if text::trim(raw).len() == 0 {
        Err("allowed source path must not be empty"@)
    } else if raw.len() > MAX_ALLOWED_SOURCE_PATH_CHARS {
        Err("allowed source path is too long"@)
    } else if has_control(raw) {
        Err("allowed source path contains control characters"@)
    } else if p[0] == '/' {
        Err("allowed source path must be project-relative"@)
    } else if paths::has_drive(p) {
        Err("allowed source path must not contain a drive prefix"@)
    } else {
        match refused_piece(text::split(p, '/')) {
            Some(reason) => Err(reason),
            None => Ok(p),
        }
    }
}

/// Whether a text holds a control character.
fn holds_control(v: &[char]) -> (r: bool)
    ensures
        r == has_control(v@),
{
    let mut i: usize = 0;
    while i < v.len()
        invariant
            i <= v@.len(),
            forall|j: int| 0 <= j < i ==> !text::is_control_code(#[trigger] v@[j]),
        decreases v@.len() - i,
    {
        if v[i].is_control() {
            return true;
        }
        i = i + 1;
    }
    false
}

/// A text that is not blank is not empty.
proof fn lemma_filled(s: Seq<char>)
    ensures
        text::trim(s).len() > 0 ==> s.len() > 0,
{
    text::trim_start_edge(s, text::CharClass::White);
    text::trim_end_edge(text::trim_start(s, text::CharClass::White), text::CharClass::White);
}

/// Brings a path of an allowlist into the form in which paths are compared, or refuses it.
pub fn normalize_project_relative_source_path(raw: &str) -> (r: Result<String, &'static str>)
    ensures
        match r {
            Ok(path) => source_path(raw@) == Ok::<Seq<char>, Seq<char>>(path@),
            Err(reason) => source_path(raw@) == Err::<Seq<char>, Seq<char>>(reason@),
        },
{
    if text::is_blank(raw) {
        return Err("allowed source path must not be empty");
    }
    proof {
        lemma_filled(raw@);
    }
    let v = text::chars_of(raw);
    if v.len() > MAX_ALLOWED_SOURCE_PATH_CHARS {
        return Err("allowed source path is too long");
    }
    if holds_control(&v) {
        return Err("allowed source path contains control characters");
    }
    let path = text::replaced(raw, '\\', '/');
    let p = text::chars_of(path.as_str());
    if p[0] == '/' {
        return Err("allowed source path must be project-relative");
    }
    if paths::begins_with_drive(p.as_slice()) {
        return Err("allowed source path must not contain a drive prefix");
    }
    let pieces = text::split_text(path.as_str(), '/');
    let ghost all = text::split(path@, '/');
    let mut i: usize = 0;
    assert(all.skip(0) =~= all);
    while i < pieces.len()
        invariant
            i <= pieces@.len(),
            text::views(pieces@) == all,
            refused_piece(all) == refused_piece(all.skip(i as int)),
            source_path(raw@) == (match refused_piece(all) {
                Some(reason) => Err::<Seq<char>, Seq<char>>(reason),
                None => Ok::<Seq<char>, Seq<char>>(path@),
            }),
        decreases pieces@.len() - i,
    {
        proof {
            assert(all.skip(i as int)[0] == pieces@[i as int]@);
            assert(all.skip(i as int).drop_first() =~= all.skip(i + 1));
        }
        let piece = pieces[i].as_str();
        if piece.is_empty() {
            return Err("allowed source path contains an empty component");
        }
        if text::same_text(piece, ".") || text::same_text(piece, "..") {
            return Err("allowed source path contains traversal components");
        }
        i = i + 1;
    }
    Ok(path)
}

/// Whether a path is in the form in which paths of an allowlist are compared.
pub open spec fn is_normal(path: Seq<char>) -> bool {
    source_path(path) == Ok::<Seq<char>, Seq<char>>(path)
}

proof fn lemma_no_refused_piece(pieces: Seq<Seq<char>>)
    requires
        refused_piece(pieces) is None,
    ensures
        forall|i: int|
            0 <= i < pieces.len() ==> (#[trigger] pieces[i]).len() > 0 && pieces[i] != "."@
                && pieces[i] != ".."@,
    decreases pieces.len(),
{
    if pieces.len() > 0 {
        lemma_no_refused_piece(pieces.drop_first());
        assert forall|i: int| 0 <= i < pieces.len() implies (#[trigger] pieces[i]).len() > 0
            && pieces[i] != "."@ && pieces[i] != ".."@ by {
            if i > 0 {
                assert(pieces.drop_first()[i - 1] == pieces[i]);
            }
        }
    }
}

proof fn lemma_white_kept(raw: Seq<char>)
    ensures
        text::trim(text::replace(raw, '\\', '/')).len() == text::trim(raw).len(),
{
    lemma_trim_start_replace(raw);
    lemma_trim_end_replace(text::trim_start(raw, text::CharClass::White));
}

proof fn lemma_trim_start_replace(s: Seq<char>)
    ensures
        text::trim_start(text::replace(s, '\\', '/'), text::CharClass::White) == text::replace(
            text::trim_start(s, text::CharClass::White),
            '\\',
            '/',
        ),
    decreases s.len(),
{
    let t = text::replace(s, '\\', '/');
    if s.len() > 0 {
        assert(t.drop_first() =~= text::replace(s.drop_first(), '\\', '/'));
        lemma_trim_start_replace(s.drop_first());
    }
}

proof fn lemma_trim_end_replace(s: Seq<char>)
    ensures
        text::trim_end(text::replace(s, '\\', '/'), text::CharClass::White) == text::replace(
            text::trim_end(s, text::CharClass::White),
            '\\',
            '/',
        ),
    decreases s.len(),
{
    let t = text::replace(s, '\\', '/');
    if s.len() > 0 {
        assert(t.drop_last() =~= text::replace(s.drop_last(), '\\', '/'));
        lemma_trim_end_replace(s.drop_last());
    }
}

/// An accepted path is in normal form: accepting it again changes nothing.
pub proof fn normal_form_is_stable(raw: Seq<char>)
    requires
        source_path(raw) is Ok,
    ensures
        is_normal(source_path(raw)->Ok_0),
{
    let p = source_path(raw)->Ok_0;
    assert(text::replace(p, '\\', '/') =~= p);
    lemma_white_kept(raw);
    if has_control(p) {
        let i = choose|i: int| 0 <= i < p.len() && text::is_control_code(#[trigger] p[i]);
        assert(text::is_control_code(raw[i]));
    }
}

/// An accepted path is relative, short, free of control characters and backslashes, and each of
/// its pieces is a plain name.
pub proof fn accepted_path_is_plain(raw: Seq<char>)
    requires
        source_path(raw) is Ok,
    ensures
        ({
            let p = source_path(raw)->Ok_0;
            &&& 0 < p.len() <= MAX_ALLOWED_SOURCE_PATH_CHARS
            &&& p[0] != '/'
            &&& !paths::has_drive(p)
            &&& !has_control(p)
            &&& !p.contains('\\')
            &&& forall|i: int|
                0 <= i < text::split(p, '/').len() ==> (#[trigger] text::split(p, '/')[i]).len()
                    > 0 && text::split(p, '/')[i] != "."@ && text::split(p, '/')[i] != ".."@
        }),
{
    normal_form_is_stable(raw);
    lemma_filled(raw);
    let p = source_path(raw)->Ok_0;
    lemma_no_refused_piece(text::split(p, '/'));
    if p.contains('\\') {
        let i = p.index_of('\\');
        assert(p[i] == '\\');
    }
}

/// The normal forms of some paths, or why the first refused one is refused.
pub open spec fn normal_set(paths: Seq<Seq<char>>) -> Result<Set<Seq<char>>, Seq<char>>
    decreases paths.len(),
{
    if paths.len() == 0 {
        Ok(Set::empty())
    } else {
        match normal_set(paths.drop_last()) {
            Err(reason) => Err(reason),
            Ok(before) => match source_path(paths.last()) {
                Err(reason) => Err(reason),
                Ok(path) => Ok(before.insert(path)),
            },
        }
    }
}

/// The allowlist of a request, or why it is refused; a request without one has none.
pub open spec fn allowlist(requested: Option<Seq<Seq<char>>>) -> Result<
    Option<Set<Seq<char>>>,
    Seq<char>,
> {
    match requested {
        None => Ok(None),
        Some(paths) => if paths.len() == 0 {
            Err("allowed_source_paths must not be empty when provided"@)
        } else if paths.len() > MAX_ALLOWED_SOURCE_PATHS {
            Err("allowed_source_paths contains too many entries"@)
        } else {
            match normal_set(paths) {
                Ok(set) => Ok(Some(set)),
                Err(reason) => Err(reason),
            }
        },
    }
}

/// The characters of an optional list of texts.
pub open spec fn optional_views(paths: Option<&[String]>) -> Option<Seq<Seq<char>>> {
    match paths {
        Some(paths) => Some(text::views(paths@)),
        None => None,
    }
}

/// The texts of an optional set.
pub open spec fn optional_set(set: Option<TextSet>) -> Option<Set<Seq<char>>> {
    match set {
        Some(set) => Some(set@),
        None => None,
    }
}

proof fn lemma_first_refusal(paths: Seq<Seq<char>>, k: int)
    requires
        0 <= k <= paths.len(),
        normal_set(paths.take(k)) is Err,
    ensures
        normal_set(paths) == normal_set(paths.take(k)),
    decreases paths.len(),
{
    if k < paths.len() {
        assert(paths.drop_last().take(k) =~= paths.take(k));
        lemma_first_refusal(paths.drop_last(), k);
    } else {
        assert(paths.take(k) =~= paths);
    }
}

/// Checks the allowlist of a request and brings its paths into normal form.
pub fn normalize_allowed_source_paths(requested: Option<&[String]>) -> (r: Result<
    Option<TextSet>,
    &'static str,
>)
    ensures
        match r {
            Ok(set) => allowlist(optional_views(requested)) == Ok::<
                Option<Set<Seq<char>>>,
                Seq<char>,
            >(optional_set(set)),
            Err(reason) => allowlist(optional_views(requested)) == Err::<
                Option<Set<Seq<char>>>,
                Seq<char>,
            >(reason@),
        },
{
    let paths = match requested {
        Some(paths) => paths,
        None => {
            return Ok(None);
        },
    };
    if paths.len() == 0 {
        return Err("allowed_source_paths must not be empty when provided");
    }
    if paths.len() > MAX_ALLOWED_SOURCE_PATHS {
        return Err("allowed_source_paths contains too many entries");
    }
    let ghost all = text::views(paths@);
    let mut set = TextSet::new();
    let mut i: usize = 0;
    assert(all.take(0) =~= Seq::empty());
    while i < paths.len()
        invariant
            i <= paths@.len(),
            0 < paths@.len() <= MAX_ALLOWED_SOURCE_PATHS,
            requested == Some(paths),
            all == text::views(paths@),
            normal_set(all.take(i as int)) == Ok::<Set<Seq<char>>, Seq<char>>(set@),
        decreases paths@.len() - i,
    {
        proof {
            assert(all.take(i + 1).drop_last() =~= all.take(i as int));
            assert(all.take(i + 1).last() == paths@[i as int]@);
        }
        match normalize_project_relative_source_path(paths[i].as_str()) {
            Ok(path) => {
                set = set.with(path);
            },
            Err(reason) => {
                proof {
                    lemma_first_refusal(all, i + 1);
                }
                return Err(reason);
            },
        }
        i = i + 1;
    }
    assert(all.take(all.len() as int) =~= all);
    Ok(Some(set))
}

proof fn lemma_normal_set_members(paths: Seq<Seq<char>>, path: Seq<char>)
    requires
        normal_set(paths) is Ok,
        normal_set(paths)->Ok_0.contains(path),
    ensures
        is_normal(path),
        exists|i: int|
            0 <= i < paths.len() && source_path(#[trigger] paths[i]) == Ok::<Seq<char>, Seq<char>>(
                path,
            ),
    decreases paths.len(),
{
    if paths.len() > 0 {
        let rest = paths.drop_last();
        if source_path(paths.last()) == Ok::<Seq<char>, Seq<char>>(path) {
            normal_form_is_stable(paths.last());
            assert(source_path(paths[paths.len() - 1]) == Ok::<Seq<char>, Seq<char>>(path));
        } else {
            lemma_normal_set_members(rest, path);
            let i = choose|i: int|
                0 <= i < rest.len() && source_path(#[trigger] rest[i]) == Ok::<
                    Seq<char>,
                    Seq<char>,
                >(path);
            assert(paths[i] == rest[i]);
        }
    }
}

/// An accepted allowlist holds the normal forms of the paths that were asked for, and no others.
pub proof fn allowlist_holds_requested_paths(paths: Seq<Seq<char>>, path: Seq<char>)
    requires
        allowlist(Some(paths)) is Ok,
        allowlist(Some(paths))->Ok_0->0.contains(path),
    ensures
        is_normal(path),
        exists|i: int|
            0 <= i < paths.len() && source_path(#[trigger] paths[i]) == Ok::<Seq<char>, Seq<char>>(
                path,
            ),
{
    lemma_normal_set_members(paths, path);
}

/// Whether a path is the directory `root` or lies below it.
pub open spec fn lies_in(path: Seq<char>, root: Seq<char>) -> bool {
    path == root || text::starts_with(path, root.push('/'))
}

/// Whether a path lies in a directory that the mode searches.
pub open spec fn in_mode(mode: RetrievalMode) -> spec_fn(Seq<char>) -> bool {
    |path: Seq<char>|
        exists|i: int|
            0 <= i < mode::mode_roots(mode).len() && lies_in(
                path,
                #[trigger] mode::mode_roots(mode)[i],
            )
}

/// What a search scans: the directories of the mode, or, under an allowlist, those of its paths
/// that lie in them.
pub open spec fn scan_roots(mode: RetrievalMode, allowed: Option<Seq<Seq<char>>>) -> Seq<
    Seq<char>,
> {
    match allowed {
        None => mode::mode_roots(mode),
        Some(paths) => paths.filter(in_mode(mode)),
    }
}

/// The texts of an optional set in ascending order.
pub open spec fn optional_texts(set: Option<&TextSet>) -> Option<Seq<Seq<char>>> {
    match set {
        Some(set) => Some(set.texts()),
        None => None,
    }
}

/// Tests whether a path is a directory or lies below it.
fn is_in(path: &str, root: &str) -> (r: bool)
    ensures
        r == lies_in(path@, root@),
{
    let mut dir = root.to_owned();
    dir.push('/');
    text::same_text(path, root) || text::begins_with(path, dir.as_str())
}

/// Tells what a search scans.
pub fn resolve_chat_context_scan_roots(mode: RetrievalMode, allowed: Option<&TextSet>) -> (r: Vec<
    String,
>)
    ensures
        text::views(r@) == scan_roots(mode, optional_texts(allowed)),
{
    let roots = mode::scan_roots_for_mode(mode);
    let allowed = match allowed {
        Some(allowed) => allowed,
        None => {
            return roots;
        },
    };
    let items = allowed.items();
    let ghost all = allowed.texts();
    let ghost dirs = mode::mode_roots(mode);
    let mut r: Vec<String> = Vec::new();
    let mut i: usize = 0;
    proof {
        reveal(Seq::filter);
        assert(all.take(0).filter(in_mode(mode)) =~= Seq::empty());
        assert(text::views(r@) =~= Seq::empty());
    }
    while i < items.len()
        invariant
            i <= items@.len(),
            text::views(items@) == all,
            text::views(roots@) == dirs,
            dirs == mode::mode_roots(mode),
            text::views(r@) == all.take(i as int).filter(in_mode(mode)),
        decreases items@.len() - i,
    {
        assert(all[i as int] == items@[i as int]@);
        proof {
            text::lemma_filter_push(all.take(i as int), all[i as int], in_mode(mode));
            assert(all.take(i as int).push(all[i as int]) =~= all.take(i + 1));
        }
        let mut keep = false;
        let mut k: usize = 0;
        while k < roots.len()
            invariant
                k <= roots@.len(),
                i < items@.len(),
                all[i as int] == items@[i as int]@,
                text::views(roots@) == dirs,
                dirs == mode::mode_roots(mode),
                keep == exists|j: int| 0 <= j < k && lies_in(all[i as int], #[trigger] dirs[j]),
            decreases roots@.len() - k,
        {
            assert(dirs[k as int] == roots@[k as int]@);
            if is_in(items[i].as_str(), roots[k].as_str()) {
                keep = true;
            }
            k = k + 1;
        }
        assert(keep == in_mode(mode)(all[i as int]));
        let ghost before = r@;
        if keep {
            r.push(items[i].clone());
            assert(text::views(r@) =~= text::views(before).push(all[i as int]));
        }
        i = i + 1;
    }
    assert(all.take(all.len() as int) =~= all);
    r
}

proof fn lemma_filter_members<T>(s: Seq<T>, keep: spec_fn(T) -> bool, x: T)
    requires
        s.filter(keep).contains(x),
    ensures
        s.contains(x),
        keep(x),
    decreases s.len(),
{
    reveal(Seq::filter);
    if s.len() > 0 {
        let rest = s.drop_last();
        text::lemma_filter_push(rest, s.last(), keep);
        assert(rest.push(s.last()) =~= s);
        let i = s.filter(keep).index_of(x);
        assert(s.filter(keep)[i] == x);
        if i < rest.filter(keep).len() {
            assert(rest.filter(keep)[i] == x);
            lemma_filter_members(rest, keep, x);
            let k = rest.index_of(x);
            assert(s[k] == x);
        } else {
            assert(s[s.len() - 1] == x);
        }
    }
}

/// Under an allowlist a search scans only paths of the allowlist that lie in a directory of the
/// mode; it never falls back to a whole directory.
pub proof fn scan_stays_in_allowlist(
    mode: RetrievalMode,
    allowed: Seq<Seq<char>>,
    path: Seq<char>,
)
    requires
        scan_roots(mode, Some(allowed)).contains(path),
    ensures
        allowed.contains(path),
        in_mode(mode)(path),
{
    lemma_filter_members(allowed, in_mode(mode), path);
}

/// Under an allowlist of which no path lies in a directory of the mode, nothing is scanned.
pub proof fn incompatible_allowlist_scans_nothing(mode: RetrievalMode, allowed: Seq<Seq<char>>)
    requires
        forall|i: int| 0 <= i < allowed.len() ==> !in_mode(mode)(#[trigger] allowed[i]),
    ensures
        scan_roots(mode, Some(allowed)).len() == 0,
{
    if scan_roots(mode, Some(allowed)).len() > 0 {
        let path = scan_roots(mode, Some(allowed))[0];
        assert(scan_roots(mode, Some(allowed)).contains(path));
        scan_stays_in_allowlist(mode, allowed, path);
        let i = allowed.index_of(path);
        assert(allowed[i] == path);
        assert(!in_mode(mode)(allowed[i]));
    }
}

/// Whether a path can stand in an allowlist: it is not blank, has 1024 characters at most and no
/// control character, and with forward separators begins with neither a separator nor a drive, and
/// every piece of it is a name.
pub open spec fn can_be_allowed(raw: Seq<char>) -> bool {
    let p = text::replace(raw, '\\', '/');
    let pieces = text::split(p, '/');
    &&& exists|i: int| 0 <= i < raw.len() && !text::is_white_space(#[trigger] raw[i])
    &&& raw.len() <= 1024
    &&& forall|i: int| 0 <= i < raw.len() ==> !text::is_control_code(#[trigger] raw[i])
    &&& p[0] != '/'
    &&& !(p.len() >= 2 && p[1] == ':' && ('a' <= p[0] <= 'z' || 'A' <= p[0] <= 'Z'))
    &&& forall|i: int|
        0 <= i < pieces.len() ==> (#[trigger] pieces[i]).len() > 0 && pieces[i] != seq!['.']
            && pieces[i] != seq!['.', '.']
}

/// A path is accepted into an allowlist if and only if it can stand there, and is kept as it is but
/// for its separators.
pub proof fn good_path_is_allowed(raw: Seq<char>)
    ensures
        source_path(raw) is Ok <==> can_be_allowed(raw),
        source_path(raw) matches Ok(path) ==> path == text::replace(raw, '\\', '/'),
        can_be_allowed(raw) && !raw.contains('\\') ==> source_path(raw) == Ok::<
            Seq<char>,
            Seq<char>,
        >(raw),
{
    let p = text::replace(raw, '\\', '/');
    let pieces = text::split(p, '/');
    text::replace_is_exact(raw, '\\', '/');
    let (a, b) = text::trim_takes_edges(raw, text::CharClass::White);
    let t = text::trim(raw);
    assert(t.len() == b - a);
    let filled = exists|i: int| 0 <= i < raw.len() && !text::is_white_space(#[trigger] raw[i]);
    if filled {
        let i = choose|i: int| 0 <= i < raw.len() && !text::is_white_space(#[trigger] raw[i]);
        assert(text::CharClass::White.has(raw[i]) == text::is_white_space(raw[i]));
        assert(a <= i < b);
    }
    if t.len() > 0 {
        assert(!text::is_white_space(raw[a]));
    }
    lemma_pieces_refused(pieces);
}

proof fn lemma_pieces_refused(pieces: Seq<Seq<char>>)
    ensures
        refused_piece(pieces) is None <==> forall|i: int|
            0 <= i < pieces.len() ==> (#[trigger] pieces[i]).len() > 0 && pieces[i] != seq!['.']
                && pieces[i] != seq!['.', '.'],
    decreases pieces.len(),
{
    reveal_strlit(".");
    reveal_strlit("..");
    assert("."@ =~= seq!['.']);
    assert(".."@ =~= seq!['.', '.']);
    if pieces.len() > 0 {
        let rest = pieces.drop_first();
        lemma_pieces_refused(rest);
        if forall|i: int|
            0 <= i < rest.len() ==> (#[trigger] rest[i]).len() > 0 && rest[i] != seq!['.']
                && rest[i] != seq!['.', '.'] {
            assert forall|i: int| 1 <= i < pieces.len() implies (#[trigger] pieces[i]).len() > 0
                && pieces[i] != seq!['.'] && pieces[i] != seq!['.', '.'] by {
                assert(rest[i - 1] == pieces[i]);
            }
        }
        if forall|i: int|
            0 <= i < pieces.len() ==> (#[trigger] pieces[i]).len() > 0 && pieces[i] != seq!['.']
                && pieces[i] != seq!['.', '.'] {
            assert forall|i: int| 0 <= i < rest.len() implies (#[trigger] rest[i]).len() > 0
                && rest[i] != seq!['.'] && rest[i] != seq!['.', '.'] by {
                assert(rest[i] == pieces[i + 1]);
            }
            assert(pieces[0].len() > 0);
        }
    }
}

/// A path that is refused is told why: the first of these reasons that holds.
pub proof fn refused_path_is_told(raw: Seq<char>)
    ensures
        ({
            let p = text::replace(raw, '\\', '/');
            let control = exists|i: int| 0 <= i < raw.len() && text::is_control_code(#[trigger] raw[i]);
            let blank = text::trim(raw).len() == 0;
            &&& blank ==> source_path(raw) == Err::<Seq<char>, Seq<char>>(
                "allowed source path must not be empty"@,
            )
            &&& !blank && raw.len() > 1024 ==> source_path(raw) == Err::<Seq<char>, Seq<char>>(
                "allowed source path is too long"@,
            )
            &&& !blank && raw.len() <= 1024 && control ==> source_path(raw) == Err::<
                Seq<char>,
                Seq<char>,
            >("allowed source path contains control characters"@)
            &&& !blank && raw.len() <= 1024 && !control && p[0] == '/' ==> source_path(raw) == Err::<
                Seq<char>,
                Seq<char>,
            >("allowed source path must be project-relative"@)
        }),
{
}

/// An allowlist of 1 to 256 paths that can all stand in one is accepted and holds the form of each.
/// One without a path, with more, or with a path that cannot stand in it is refused; a request
/// without an allowlist has none.
pub proof fn allowlist_is_judged(paths: Seq<Seq<char>>, k: int)
    ensures
        allowlist(None) == Ok::<Option<Set<Seq<char>>>, Seq<char>>(None),
        paths.len() == 0 ==> allowlist(Some(paths)) == Err::<Option<Set<Seq<char>>>, Seq<char>>(
            "allowed_source_paths must not be empty when provided"@,
        ),
        paths.len() > 256 ==> allowlist(Some(paths)) == Err::<Option<Set<Seq<char>>>, Seq<char>>(
            "allowed_source_paths contains too many entries"@,
        ),
        1 <= paths.len() <= 256 ==> {
            &&& allowlist(Some(paths)) is Ok <==> forall|i: int|
                0 <= i < paths.len() ==> can_be_allowed(#[trigger] paths[i])
            &&& allowlist(Some(paths)) is Ok && 0 <= k < paths.len() ==> (allowlist(
                Some(paths),
            )->Ok_0 matches Some(set) && set.contains(text::replace(paths[k], '\\', '/')))
        },
{
    lemma_normal_set(paths, k);
}

proof fn lemma_normal_set(paths: Seq<Seq<char>>, k: int)
    ensures
        normal_set(paths) is Ok <==> forall|i: int|
            0 <= i < paths.len() ==> can_be_allowed(#[trigger] paths[i]),
        normal_set(paths) is Ok && 0 <= k < paths.len() ==> normal_set(paths)->Ok_0.contains(
            text::replace(paths[k], '\\', '/'),
        ),
    decreases paths.len(),
{
    if paths.len() > 0 {
        let front = paths.drop_last();
        let last = paths.len() - 1;
        lemma_normal_set(front, k);
        good_path_is_allowed(paths.last());
        assert(paths[last] == paths.last());
        if forall|i: int| 0 <= i < front.len() ==> can_be_allowed(#[trigger] front[i]) {
            assert forall|i: int| 0 <= i < last implies can_be_allowed(#[trigger] paths[i]) by {
                assert(front[i] == paths[i]);
            }
        }
        if forall|i: int| 0 <= i < paths.len() ==> can_be_allowed(#[trigger] paths[i]) {
            assert forall|i: int| 0 <= i < front.len() implies can_be_allowed(
                #[trigger] front[i],
            ) by {
                assert(front[i] == paths[i]);
            }
        }
        if 0 <= k < last {
            assert(front[k] == paths[k]);
        }
    }
}

/// A path lies in a directory if it is the directory, or the directory with a separator and
/// something behind it; a name that merely begins alike does not.
pub proof fn directory_holds_what_is_below(root: Seq<char>, rest: Seq<char>, path: Seq<char>)
    ensures
        lies_in(root, root),
        lies_in(root + seq!['/'] + rest, root),
        lies_in(path, root) ==> path == root || path == root + seq!['/'] + path.skip(
            root.len() + 1int,
        ),
        rest.len() > 0 && rest[0] != '/' ==> !lies_in(root + rest, root),
{
    let below = root + seq!['/'] + rest;
    assert(below =~= root.push('/') + rest);
    text::contained_text_stands_between(path, Seq::empty(), root.push('/'), rest);
    if lies_in(path, root) && path != root {
        assert(path =~= root + seq!['/'] + path.skip(root.len() + 1int));
    }
    if rest.len() > 0 && rest[0] != '/' {
        let other = root + rest;
        assert(other.len() > root.len());
        if text::starts_with(other, root.push('/')) {
            assert(other.subrange(0, root.len() + 1int)[root.len() as int] == '/');
            assert(other[root.len() as int] == rest[0]);
        }
    }
}

/// Under an allowlist a search scans exactly those of its paths that lie in a directory of the
/// mode, in their order; without one it scans the directories of the mode.
pub proof fn allowed_paths_are_scanned(
    mode: RetrievalMode,
    a: Seq<Seq<char>>,
    b: Seq<Seq<char>>,
    path: Seq<char>,
)
    ensures
        scan_roots(mode, None) == mode::mode_roots(mode),
        scan_roots(mode, Some(a + b)) == scan_roots(mode, Some(a)) + scan_roots(mode, Some(b)),
        scan_roots(RetrievalMode::Wiki, Some(seq![path])) == (if lies_in(path, "wiki"@) {
            seq![path]
        } else {
            Seq::empty()
        }),
        scan_roots(RetrievalMode::SourcesOnly, Some(seq![path])) == (if lies_in(
            path,
            "raw/sources"@,
        ) {
            seq![path]
        } else {
            Seq::empty()
        }),
        scan_roots(RetrievalMode::Hybrid, Some(seq![path])) == (if lies_in(path, "wiki"@) || lies_in(
            path,
            "raw/sources"@,
        ) {
            seq![path]
        } else {
            Seq::empty()
        }),
{
    lemma_filter_parts(a, b, in_mode(mode));
    mode::modes_have_roots(mode);
    lemma_scan_one(RetrievalMode::Wiki, path);
    lemma_scan_one(RetrievalMode::SourcesOnly, path);
    lemma_scan_one(RetrievalMode::Hybrid, path);
    let wiki = mode::mode_roots(RetrievalMode::Wiki);
    let sources = mode::mode_roots(RetrievalMode::SourcesOnly);
    let hybrid = mode::mode_roots(RetrievalMode::Hybrid);
    assert(wiki[0] == "wiki"@ && sources[0] == "raw/sources"@);
    assert(hybrid[0] == "wiki"@ && hybrid[1] == "raw/sources"@);
    assert(in_mode(RetrievalMode::Wiki)(path) == lies_in(path, "wiki"@));
    assert(in_mode(RetrievalMode::SourcesOnly)(path) == lies_in(path, "raw/sources"@));
    assert(in_mode(RetrievalMode::Hybrid)(path) == (lies_in(path, "wiki"@) || lies_in(
        path,
        "raw/sources"@,
    )));
}

proof fn lemma_scan_one(mode: RetrievalMode, path: Seq<char>)
    ensures
        scan_roots(mode, Some(seq![path])) == (if in_mode(mode)(path) {
            seq![path]
        } else {
            Seq::empty()
        }),
{
    let none = Seq::<Seq<char>>::empty();
    assert(none.filter(in_mode(mode)) =~= none) by {
        reveal(Seq::filter);
    }
    text::lemma_filter_push(none, path, in_mode(mode));
    assert(none.push(path) =~= seq![path]);
}

proof fn lemma_filter_parts<T>(a: Seq<T>, b: Seq<T>, keep: spec_fn(T) -> bool)
    ensures
        (a + b).filter(keep) == a.filter(keep) + b.filter(keep),
    decreases b.len(),
{
    if b.len() == 0 {
        assert(a + b =~= a);
        assert(b.filter(keep) =~= Seq::empty()) by {
            reveal(Seq::filter);
        }
        assert(a.filter(keep) + b.filter(keep) =~= a.filter(keep));
    } else {
        let front = b.drop_last();
        lemma_filter_parts(a, front, keep);
        text::lemma_filter_push(a + front, b.last(), keep);
        text::lemma_filter_push(front, b.last(), keep);
        assert((a + front).push(b.last()) =~= a + b);
        assert(front.push(b.last()) =~= b);
        assert((a + b).filter(keep) =~= a.filter(keep) + b.filter(keep));
    }
}

/// Paths and sets that are given are taken for what they hold, and none for none.
pub proof fn scopes_are_taken_as_they_are(paths: Option<&[String]>, set: Option<&TextSet>, i: int)
    ensures
        optional_views(paths) is Some == paths is Some,
        paths matches Some(paths) ==> optional_views(Some(paths))->0.len() == paths@.len(),
        paths matches Some(paths) ==> (0 <= i < paths@.len() ==> optional_views(Some(paths))->0[i]
            == paths@[i]@),
        optional_texts(set) is Some == set is Some,
        set matches Some(set) ==> optional_texts(Some(set))->0 == set.texts(),
{
}

} // verus!

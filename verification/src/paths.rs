//! Paths as texts: their parts, joining them, and keeping them inside a project.
//!
//! A path is read in the POSIX way: `/` separates the parts, repeated separators count once, and
//! a part `.` counts only at the very beginning. On Windows a request may also write `\\`, a drive
//! or a share; such a path is brought into forward separators once it is known to be harmless.
//! Paths of bytes are those that the file system hands over; they come with forward separators.
use crate::startup::Platform;
use crate::text;
use crate::text::CharClass;
use vstd::prelude::*;
use vstd::string::*;
use vstd::utf8::*;

verus! {

/// A part of a path, over characters or bytes.
pub ghost enum Part<T> {
    RootDir,
    CurDir,
    ParentDir,
    Normal(Seq<T>),
}

/// The part that a piece between two separators stands for, if any.
pub open spec fn part_of<T>(piece: Seq<T>, dot: T) -> Option<Part<T>> {
    if piece.len() == 0 || (piece.len() == 1 && piece[0] == dot) {
        None
    } else if piece.len() == 2 && piece[0] == dot && piece[1] == dot {
        Some(Part::ParentDir)
    } else {
        Some(Part::Normal(piece))
    }
}

/// The parts that the pieces between the separators stand for.
pub open spec fn parts_of<T>(pieces: Seq<Seq<T>>, dot: T) -> Seq<Part<T>>
    decreases pieces.len(),
{
    if pieces.len() == 0 {
        Seq::empty()
    } else {
        let before = parts_of(pieces.drop_last(), dot);
        match part_of(pieces.last(), dot) {
            Some(part) => before.push(part),
            None => before,
        }
    }
}

/// What a path begins with before its named parts.
pub open spec fn start_of<T>(p: Seq<T>, slash: T, dot: T) -> Seq<Part<T>> {
    if p.len() > 0 && p[0] == slash {
        Seq::empty().push(Part::RootDir)
    } else if p.len() > 0 && p[0] == dot && (p.len() == 1 || p[1] == slash) {
        Seq::empty().push(Part::CurDir)
    } else {
        Seq::empty()
    }
}

/// The parts of a path.
pub open spec fn path_parts<T>(p: Seq<T>, slash: T, dot: T) -> Seq<Part<T>> {
    start_of(p, slash, dot) + parts_of(text::split(p, slash), dot)
}

/// The parts of a path of characters.
pub open spec fn parts(p: Seq<char>) -> Seq<Part<char>> {
    path_parts(p, '/', '.')
}

/// The parts of a path of bytes.
pub open spec fn byte_parts(p: Seq<u8>) -> Seq<Part<u8>> {
    path_parts(p, 0x2f, 0x2e)
}

/// Whether the parts of `root` begin the parts of `path`.
pub open spec fn starts_with<T>(path: Seq<Part<T>>, root: Seq<Part<T>>) -> bool {
    root.len() <= path.len() && path.take(root.len() as int) == root
}

/// The path `rest` below `base`; an absolute `rest` stands for itself.
pub open spec fn join(base: Seq<char>, rest: Seq<char>) -> Seq<char> {
    if rest.len() > 0 && rest[0] == '/' {
        rest
    } else if base.len() == 0 || base.last() == '/' {
        base + rest
    } else {
        base.push('/') + rest
    }
}

/// Puts `rest` below `base`.
pub fn joined(base: &str, rest: &str) -> (r: String)
    ensures
        r@ == join(base@, rest@),
{
    let b = text::chars_of(base);
    let q = text::chars_of(rest);
    if q.len() > 0 && q[0] == '/' {
        return rest.to_owned();
    }
    let mut r = base.to_owned();
    if b.len() > 0 && b[b.len() - 1] != '/' {
        r.push('/');
    }
    r.append(rest);
    r
}

/// Splitting two texts with a separator between them splits each.
proof fn lemma_split_join<T>(a: Seq<T>, b: Seq<T>, sep: T)
    ensures
        text::split(a.push(sep) + b, sep) == text::split(a, sep) + text::split(b, sep),
    decreases b.len(),
{
    let whole = a.push(sep) + b;
    if b.len() == 0 {
        assert(whole =~= a.push(sep));
        assert(whole.drop_last() =~= a);
        assert(text::split(b, sep) =~= seq![Seq::empty()]);
        assert(text::split(whole, sep) =~= text::split(a, sep) + text::split(b, sep));
    } else {
        lemma_split_join(a, b.drop_last(), sep);
        text::lemma_split_len(b.drop_last(), sep);
        assert(whole.drop_last() =~= a.push(sep) + b.drop_last());
        let left = text::split(a, sep);
        let right = text::split(b.drop_last(), sep);
        assert((left + right).last() == right.last());
        assert((left + right).drop_last() =~= left + right.drop_last());
        assert(text::split(whole, sep) =~= left + text::split(b, sep));
    }
}

proof fn lemma_parts_concat<T>(a: Seq<Seq<T>>, b: Seq<Seq<T>>, dot: T)
    ensures
        parts_of(a + b, dot) == parts_of(a, dot) + parts_of(b, dot),
    decreases b.len(),
{
    if b.len() == 0 {
        assert(a + b =~= a);
        assert(parts_of(a, dot) + parts_of(b, dot) =~= parts_of(a, dot));
    } else {
        lemma_parts_concat(a, b.drop_last(), dot);
        assert((a + b).drop_last() =~= a + b.drop_last());
        assert((a + b).last() == b.last());
        assert(parts_of(a + b, dot) =~= parts_of(a, dot) + parts_of(b, dot));
    }
}

/// A path joined below a base has the parts of the base, then those of the joined path: nothing
/// that is joined with [`join`] takes a part of the base away.
pub proof fn join_keeps_base(base: Seq<char>, rest: Seq<char>)
    requires
        base.len() > 0,
        rest.len() == 0 || rest[0] != '/',
    ensures
        parts(join(base, rest)) == parts(base) + parts_of(text::split(rest, '/'), '.'),
        starts_with(parts(join(base, rest)), parts(base)),
{
    let whole = join(base, rest);
    let named = parts_of(text::split(rest, '/'), '.');
    if base.last() == '/' {
        let cut = base.drop_last();
        lemma_split_join(cut, rest, '/');
        assert(base =~= cut.push('/'));
        assert(whole =~= cut.push('/') + rest);
        lemma_parts_concat(text::split(cut, '/'), text::split(rest, '/'), '.');
        assert(text::split(base, '/') == text::split(cut, '/').push(Seq::empty()));
        assert(text::split(cut, '/').push(Seq::empty()).drop_last() =~= text::split(cut, '/'));
        assert(parts_of(text::split(base, '/'), '.') == parts_of(text::split(cut, '/'), '.'));
    } else {
        lemma_split_join(base, rest, '/');
        lemma_parts_concat(text::split(base, '/'), text::split(rest, '/'), '.');
    }
    assert(start_of(whole, '/', '.') == start_of(base, '/', '.'));
    assert(parts(whole) =~= parts(base) + named);
    assert(parts(whole).take(parts(base).len() as int) =~= parts(base));
}

/// A path as it is read: on Windows a backward separator is a separator too.
pub open spec fn slashed(platform: Platform, path: Seq<char>) -> Seq<char> {
    if platform == Platform::Windows {
        text::replace(path, '\\', '/')
    } else {
        path
    }
}

/// Writes a path with forward separators, if the platform has others too.
pub fn slashed_text(platform: Platform, path: &str) -> (r: String)
    ensures
        r@ == slashed(platform, path@),
{
    if platform == Platform::Windows {
        text::replaced(path, '\\', '/')
    } else {
        path.to_owned()
    }
}

/// Whether a path begins with the letter of a drive.
pub open spec fn has_drive(p: Seq<char>) -> bool {
    &&& p.len() >= 2
    &&& ('a' <= p[0] <= 'z' || 'A' <= p[0] <= 'Z')
    &&& p[1] == ':'
}

/// Tests whether a path begins with the letter of a drive.
pub fn begins_with_drive(p: &[char]) -> (r: bool)
    ensures
        r == has_drive(p@),
{
    p.len() >= 2 && (('a' <= p[0] && p[0] <= 'z') || ('A' <= p[0] && p[0] <= 'Z')) && p[1] == ':'
}

/// How many characters of a path with forward separators name a share: two separators, a server,
/// a separator and a name; none where it does not begin so.
pub open spec fn share_len(p: Seq<char>) -> int {
    if p.len() > 2 && p[0] == '/' && p[1] == '/' {
        let server = text::first_index(p.skip(2), '/');
        let name = text::first_index(p.skip(server + 3), '/');
        if server > 0 && server + 3 <= p.len() && name > 0 {
            server + 3 + name
        } else {
            0
        }
    } else {
        0
    }
}

/// How many characters of a path name a drive or a share; only paths of Windows have them.
pub open spec fn prefix_len(platform: Platform, path: Seq<char>) -> int {
    let p = slashed(platform, path);
    if platform != Platform::Windows {
        0
    } else if has_drive(p) {
        2
    } else {
        share_len(p)
    }
}

/// Finds the first separator from `from` on; the end where there is none.
fn separator_from(p: &[char], from: usize) -> (r: usize)
    requires
        from <= p@.len(),
    ensures
        from <= r <= p@.len(),
        r == from + text::first_index(p@.skip(from as int), '/'),
{
    let mut i: usize = from;
    while i < p.len() && p[i] != '/'
        invariant
            from <= i <= p@.len(),
            text::first_index(p@.skip(from as int), '/') == i - from + text::first_index(
                p@.skip(i as int),
                '/',
            ),
        decreases p@.len() - i,
    {
        assert(p@.skip(i as int)[0] == p@[i as int]);
        assert(p@.skip(i as int).drop_first() =~= p@.skip(i + 1));
        i = i + 1;
    }
    if i < p.len() {
        assert(p@.skip(i as int)[0] == p@[i as int]);
    }
    i
}

/// Counts the characters of a path that name a drive or a share.
fn count_prefix(platform: Platform, path: &str) -> (r: usize)
    ensures
        r == prefix_len(platform, path@),
        r <= path@.len(),
{
    if platform != Platform::Windows {
        return 0;
    }
    let p = text::chars_of(slashed_text(platform, path).as_str());
    if begins_with_drive(p.as_slice()) {
        return 2;
    }
    if p.len() > 2 && p[0] == '/' && p[1] == '/' {
        let server: usize = separator_from(p.as_slice(), 2);
        if server > 2 && server < p.len() {
            let name: usize = separator_from(p.as_slice(), server + 1);
            if name > server + 1 {
                return name;
            }
        }
    }
    0
}

/// Whether a path is absolute: it begins at the root, on Windows of a drive or a share.
pub open spec fn is_absolute(platform: Platform, path: Seq<char>) -> bool {
    let p = slashed(platform, path);
    if platform == Platform::Windows {
        (has_drive(p) && p.len() > 2 && p[2] == '/') || (!has_drive(p) && share_len(p) > 0)
    } else {
        p.len() > 0 && p[0] == '/'
    }
}

/// Tests whether a path is absolute.
pub fn is_absolute_path(platform: Platform, path: &str) -> (r: bool)
    ensures
        r == is_absolute(platform, path@),
{
    let p = text::chars_of(slashed_text(platform, path).as_str());
    if platform == Platform::Windows {
        let prefix: usize = count_prefix(platform, path);
        if begins_with_drive(p.as_slice()) {
            p.len() > 2 && p[2] == '/'
        } else {
            prefix > 0
        }
    } else {
        p.len() > 0 && p[0] == '/'
    }
}

/// Whether a path, with the separators in front dropped, leads out of the directory that it is
/// put below: it begins with a drive, a share or the root, or has a part `..`.
pub open spec fn leads_out(platform: Platform, rest: Seq<char>) -> bool {
    let p = slashed(platform, rest);
    prefix_len(platform, rest) > 0 || (p.len() > 0 && p[0] == '/') || parts(p).contains(
        Part::ParentDir,
    )
}

/// The path below the project that a request names, or why it is refused. Separators in front are
/// dropped; an absolute path, and one that leads out of the project, is refused.
pub open spec fn inside(platform: Platform, project_path: Seq<char>, rel: Seq<char>) -> Result<
    Seq<char>,
    Seq<char>,
> {
    let rest = text::trim_start(rel, CharClass::Only('/'));
    if is_absolute(platform, rest) {
        Err("Absolute paths are not allowed"@)
    } else if leads_out(platform, rest) {
        Err("Path traversal is not allowed"@)
    } else {
        Ok(join(project_path, slashed(platform, rest)))
    }
}

/// Whether a piece of a path is `..`.
fn is_parent_piece(piece: &str) -> (r: bool)
    ensures
        r == (part_of(piece@, '.') == Some(Part::<char>::ParentDir)),
{
    let v = text::chars_of(piece);
    v.len() == 2 && v[0] == '.' && v[1] == '.'
}

proof fn lemma_parts_contain<T>(pieces: Seq<Seq<T>>, dot: T, part: Part<T>)
    ensures
        parts_of(pieces, dot).contains(part) == exists|i: int|
            0 <= i < pieces.len() && part_of(#[trigger] pieces[i], dot) == Some(part),
    decreases pieces.len(),
{
    if pieces.len() > 0 {
        let rest = pieces.drop_last();
        lemma_parts_contain(rest, dot, part);
        let all = parts_of(pieces, dot);
        let before = parts_of(rest, dot);
        if all.contains(part) {
            let k = all.index_of(part);
            if k < before.len() {
                assert(before[k] == part);
                assert(before.contains(part));
                let i = choose|i: int|
                    0 <= i < rest.len() && part_of(#[trigger] rest[i], dot) == Some(part);
                assert(part_of(pieces[i], dot) == Some(part));
            } else {
                assert(part_of(pieces[pieces.len() - 1], dot) == Some(part));
            }
        }
        if exists|i: int|
            0 <= i < pieces.len() && part_of(#[trigger] pieces[i], dot) == Some(part) {
            let i = choose|i: int|
                0 <= i < pieces.len() && part_of(#[trigger] pieces[i], dot) == Some(part);
            if i < rest.len() {
                assert(part_of(rest[i], dot) == Some(part));
                let k = before.index_of(part);
                assert(all[k] == part);
            } else {
                assert(all[all.len() - 1] == part);
            }
        }
    }
}

/// Whether a path has a part `..`.
fn has_parent_part(p: &str) -> (r: bool)
    ensures
        r == parts(p@).contains(Part::ParentDir),
{
    let pieces = text::split_text(p, '/');
    let ghost all = text::split(p@, '/');
    proof {
        lemma_parts_contain(all, '.', Part::<char>::ParentDir);
        let start = start_of(p@, '/', '.');
        let named = parts_of(all, '.');
        if parts(p@).contains(Part::ParentDir) {
            let k = parts(p@).index_of(Part::ParentDir);
            assert(parts(p@)[k] == Part::<char>::ParentDir);
            assert(k >= start.len());
            assert(named[k - start.len()] == Part::<char>::ParentDir);
        }
        if named.contains(Part::ParentDir) {
            let k = named.index_of(Part::ParentDir);
            assert(parts(p@)[k + start.len()] == Part::<char>::ParentDir);
        }
    }
    let mut i: usize = 0;
    while i < pieces.len()
        invariant
            i <= pieces@.len(),
            text::views(pieces@) == all,
            parts(p@).contains(Part::ParentDir) == exists|j: int|
                0 <= j < all.len() && part_of(#[trigger] all[j], '.') == Some(
                    Part::<char>::ParentDir,
                ),
            forall|j: int|
                0 <= j < i ==> part_of(#[trigger] all[j], '.') != Some(Part::<char>::ParentDir),
        decreases pieces@.len() - i,
    {
        assert(all[i as int] == pieces@[i as int]@);
        if is_parent_piece(pieces[i].as_str()) {
            return true;
        }
        i = i + 1;
    }
    false
}

/// Puts a path that a request names below the project, or refuses it.
pub fn safe_join(platform: Platform, project_path: &str, rel: &str) -> (r: Result<String, String>)
    ensures
        match r {
            Ok(path) => inside(platform, project_path@, rel@) == Ok::<Seq<char>, Seq<char>>(path@),
            Err(message) => inside(platform, project_path@, rel@) == Err::<Seq<char>, Seq<char>>(
                message@,
            ),
        },
{
    let rest = text::without_prefix_of(rel, CharClass::Only('/'));
    if is_absolute_path(platform, rest.as_str()) {
        return Err("Absolute paths are not allowed".to_owned());
    }
    let path = slashed_text(platform, rest.as_str());
    let v = text::chars_of(path.as_str());
    if count_prefix(platform, rest.as_str()) > 0 || (v.len() > 0 && v[0] == '/')
        || has_parent_part(path.as_str()) {
        return Err("Path traversal is not allowed".to_owned());
    }
    Ok(joined(project_path, path.as_str()))
}

/// What is put below a directory under a name: on Windows a name with a drive or a share stands
/// for itself, and one that begins at the root for a place on the drive or share of the directory.
pub open spec fn join_named(platform: Platform, base: Seq<char>, name: Seq<char>) -> Seq<char> {
    let p = slashed(platform, name);
    if platform != Platform::Windows {
        join(base, p)
    } else if prefix_len(platform, name) > 0 {
        p
    } else if p.len() > 0 && p[0] == '/' {
        base.take(prefix_len(platform, base)) + p
    } else {
        join(base, p)
    }
}

/// Puts a name below a directory.
pub fn joined_named(platform: Platform, base: &str, name: &str) -> (r: String)
    ensures
        r@ == join_named(platform, base@, name@),
{
    let path = slashed_text(platform, name);
    if platform != Platform::Windows {
        return joined(base, path.as_str());
    }
    if count_prefix(platform, name) > 0 {
        return path;
    }
    let v = text::chars_of(path.as_str());
    if v.len() > 0 && v[0] == '/' {
        let b = text::chars_of(base);
        let n: usize = count_prefix(platform, base);
        let mut r = text::text_between(b.as_slice(), 0, n);
        assert(r@ =~= base@.take(n as int));
        r.append(path.as_str());
        return r;
    }
    joined(base, path.as_str())
}

/// The name of the file that a path of the platform ends with.
pub open spec fn named_file(platform: Platform, path: Seq<char>) -> Option<Seq<char>> {
    file_name(slashed(platform, path).skip(prefix_len(platform, path)))
}

/// Tells the name of the file that a path of the platform ends with.
pub fn named_file_of(platform: Platform, path: &str) -> (r: Option<String>)
    ensures
        match r {
            Some(name) => named_file(platform, path@) == Some(name@),
            None => named_file(platform, path@) is None,
        },
{
    let p = text::chars_of(slashed_text(platform, path).as_str());
    let n: usize = count_prefix(platform, path);
    let end: usize = p.len();
    let bare = text::text_between(p.as_slice(), n, end);
    assert(bare@ =~= slashed(platform, path@).skip(n as int));
    file_name_of(bare.as_str())
}

/// A path that [`safe_join`] accepts lies below the project: it has the parts of the project's
/// path, then further parts of which none is `..`.
pub proof fn accepted_path_is_inside(platform: Platform, project_path: Seq<char>, rel: Seq<char>)
    requires
        inside(platform, project_path, rel) is Ok,
    ensures
        ({
            let path = parts(inside(platform, project_path, rel)->Ok_0);
            let root = parts(project_path);
            &&& starts_with(path, root)
            &&& !path.skip(root.len() as int).contains(Part::ParentDir)
        }),
{
    let rest = slashed(platform, text::trim_start(rel, CharClass::Only('/')));
    let path = parts(join(project_path, rest));
    let root = parts(project_path);
    if project_path.len() == 0 {
        reveal_with_fuel(parts_of, 2);
        assert(project_path + rest =~= rest);
        assert(text::split(project_path, '/') =~= seq![Seq::empty()]);
        assert(root =~= Seq::empty());
        assert(path.take(0) =~= root);
        assert(path.skip(0) =~= path);
    } else {
        join_keeps_base(project_path, rest);
        let named = parts_of(text::split(rest, '/'), '.');
        assert(path.skip(root.len() as int) =~= named);
        if named.contains(Part::ParentDir) {
            let k = named.index_of(Part::ParentDir);
            assert(parts(rest)[k + start_of(rest, '/', '.').len()] == Part::<char>::ParentDir);
        }
    }
}

/// The path with forward separators and none at the end.
pub open spec fn normal_path(path: Seq<char>) -> Seq<char> {
    text::trim_end(text::replace(path, '\\', '/'), CharClass::Only('/'))
}

/// Writes a path with forward separators and none at the end.
pub fn normalize_path(path: &str) -> (r: String)
    ensures
        r@ == normal_path(path@),
{
    text::without_suffix_of(text::replaced(path, '\\', '/').as_str(), CharClass::Only('/'))
}

/// Normalizing a path twice is normalizing it once.
pub proof fn normal_path_is_stable(path: Seq<char>)
    ensures
        normal_path(normal_path(path)) == normal_path(path),
{
    let slashed = text::replace(path, '\\', '/');
    let once = normal_path(path);
    text::trim_end_edge(slashed, CharClass::Only('/'));
    assert(text::replace(once, '\\', '/') =~= once);
}

/// Whether two paths name one project; the case of ASCII letters counts but on Windows.
pub open spec fn same_project_path(
    stored: Seq<char>,
    candidate: Seq<char>,
    platform: Platform,
) -> bool {
    let a = normal_path(stored);
    let b = normal_path(candidate);
    if platform == Platform::Windows {
        text::ascii_lower(a) == text::ascii_lower(b)
    } else {
        a == b
    }
}

/// Tests whether two paths name one project.
pub fn project_path_matches(stored: &str, candidate: &str, platform: Platform) -> (r: bool)
    ensures
        r == same_project_path(stored@, candidate@, platform),
{
    let a = normalize_path(stored);
    let b = normalize_path(candidate);
    if platform == Platform::Windows {
        text::same_text(
            text::ascii_lowered(a.as_str()).as_str(),
            text::ascii_lowered(b.as_str()).as_str(),
        )
    } else {
        text::same_text(a.as_str(), b.as_str())
    }
}

/// The name of the file that the parts of a path end with.
pub open spec fn last_name<T>(all: Seq<Part<T>>) -> Option<Seq<T>> {
    if all.len() > 0 {
        match all.last() {
            Part::Normal(name) => Some(name),
            _ => None,
        }
    } else {
        None
    }
}

/// The name of the file that a path ends with.
pub open spec fn file_name(path: Seq<char>) -> Option<Seq<char>> {
    last_name(parts(path))
}

proof fn lemma_parts_skip_nothing<T>(pieces: Seq<Seq<T>>, k: int, dot: T)
    requires
        0 <= k <= pieces.len(),
        forall|j: int| k <= j < pieces.len() ==> part_of(#[trigger] pieces[j], dot) is None,
    ensures
        parts_of(pieces, dot) == parts_of(pieces.take(k), dot),
    decreases pieces.len(),
{
    if k < pieces.len() {
        lemma_parts_skip_nothing(pieces.drop_last(), k, dot);
        assert(pieces.drop_last().take(k) =~= pieces.take(k));
    } else {
        assert(pieces.take(k) =~= pieces);
    }
}

/// Tells the name of the file that a path ends with.
pub fn file_name_of(path: &str) -> (r: Option<String>)
    ensures
        match r {
            Some(name) => file_name(path@) == Some(name@),
            None => file_name(path@) is None,
        },
{
    let pieces = text::split_text(path, '/');
    let ghost all = text::split(path@, '/');
    let ghost start = start_of(path@, '/', '.');
    let mut k: usize = pieces.len();
    while k > 0
        invariant
            k <= pieces@.len(),
            text::views(pieces@) == all,
            all == text::split(path@, '/'),
            start == start_of(path@, '/', '.'),
            forall|j: int| k <= j < all.len() ==> part_of(#[trigger] all[j], '.') is None,
        decreases k,
    {
        let piece = text::chars_of(pieces[k - 1].as_str());
        assert(all[k - 1] == piece@);
        if piece.len() == 0 || (piece.len() == 1 && piece[0] == '.') {
            k = k - 1;
            continue ;
        }
        proof {
            lemma_parts_skip_nothing(all, k as int, '.');
            assert(all.take(k as int).drop_last() =~= all.take(k - 1));
            assert(parts(path@).last() == part_of(all[k - 1], '.')->0);
        }
        if piece.len() == 2 && piece[0] == '.' && piece[1] == '.' {
            return None;
        }
        return Some(pieces[k - 1].clone());
    }
    proof {
        lemma_parts_skip_nothing(all, 0, '.');
        assert(all.take(0) =~= Seq::empty());
        assert(parts(path@) =~= start);
    }
    None
}

/// How many elements stand behind the last `c`; all of them where there is none.
pub open spec fn after_last<T>(s: Seq<T>, c: T) -> nat
    decreases s.len(),
{
    if s.len() == 0 || s.last() == c {
        0
    } else {
        1 + after_last(s.drop_last(), c)
    }
}

/// Where the last dot of a file name stands, unless there is none or it is the first character.
pub open spec fn last_dot<T>(name: Seq<T>, dot: T) -> Option<int> {
    let at = name.len() - after_last(name, dot) - 1;
    if at > 0 {
        Some(at)
    } else {
        None
    }
}

/// A file name without its extension.
pub open spec fn stem_in<T>(name: Seq<T>, dot: T) -> Seq<T> {
    match last_dot(name, dot) {
        Some(at) => name.take(at),
        None => name,
    }
}

/// The extension of a file name.
pub open spec fn extension_in<T>(name: Seq<T>, dot: T) -> Option<Seq<T>> {
    match last_dot(name, dot) {
        Some(at) => Some(name.skip(at + 1)),
        None => None,
    }
}

/// A file name without its extension.
pub open spec fn stem(name: Seq<char>) -> Seq<char> {
    stem_in(name, '.')
}

/// The extension of a file name.
pub open spec fn extension(name: Seq<char>) -> Option<Seq<char>> {
    extension_in(name, '.')
}

/// Finds the dot before the extension of a file name.
fn find_extension_dot(v: &[char]) -> (r: Option<usize>)
    ensures
        match r {
            Some(at) => last_dot(v@, '.') == Some(at as int) && 0 < at < v@.len(),
            None => last_dot(v@, '.') is None,
        },
{
    let mut k: usize = v.len();
    assert(v@.take(k as int) =~= v@);
    while k > 0 && v[k - 1] != '.'
        invariant
            k <= v@.len(),
            after_last(v@, '.') == v@.len() - k + after_last(v@.take(k as int), '.'),
        decreases k,
    {
        assert(v@.take(k as int).drop_last() =~= v@.take(k - 1));
        k = k - 1;
    }
    if k > 1 {
        Some(k - 1)
    } else {
        None
    }
}

/// Tells the stem of the file that a path ends with.
pub fn file_stem_of(path: &str) -> (r: Option<String>)
    ensures
        match r {
            Some(s) => file_name(path@) is Some && s@ == stem(file_name(path@)->0),
            None => file_name(path@) is None,
        },
{
    match file_name_of(path) {
        Some(name) => {
            let v = text::chars_of(name.as_str());
            match find_extension_dot(&v) {
                Some(at) => Some(text::text_between(&v, 0, at)),
                None => Some(name),
            }
        },
        None => None,
    }
}

/// The extension of the file that a path ends with.
pub open spec fn path_extension(path: Seq<char>) -> Option<Seq<char>> {
    match file_name(path) {
        Some(name) => extension(name),
        None => None,
    }
}

/// Tells the extension of the file that a path ends with.
pub fn extension_of(path: &str) -> (r: Option<String>)
    ensures
        match r {
            Some(ext) => path_extension(path@) == Some(ext@),
            None => path_extension(path@) is None,
        },
{
    match file_name_of(path) {
        Some(name) => {
            let v = text::chars_of(name.as_str());
            match find_extension_dot(&v) {
                Some(at) => {
                    let end: usize = v.len();
                    assert(v@.skip(at + 1) =~= v@.subrange(at + 1, v@.len() as int));
                    Some(text::text_between(&v, at + 1, end))
                },
                None => None,
            }
        },
        None => None,
    }
}

/// The name that a project is shown under when none is stored.
pub open spec fn name_from_path(path: Seq<char>) -> Seq<char> {
    match file_name(path) {
        Some(name) => name,
        None => "Project"@,
    }
}

/// Tells the name that a project is shown under when none is stored.
pub fn project_name_from_path(path: &str) -> (r: String)
    ensures
        r@ == name_from_path(path@),
{
    match file_name_of(path) {
        Some(name) => name,
        None => "Project".to_owned(),
    }
}

/// Whether a slug keeps the character.
pub open spec fn slug_keeps(c: char) -> bool {
    ||| 'a' <= c <= 'z'
    ||| 'A' <= c <= 'Z'
    ||| '0' <= c <= '9'
    ||| c == '.'
    ||| c == '_'
    ||| c == '-'
}

/// The text with each run of characters that a slug does not keep replaced by one dash, and
/// whether it ends in such a run.
pub open spec fn dashed(s: Seq<char>) -> (Seq<char>, bool)
    decreases s.len(),
{
    if s.len() == 0 {
        (Seq::empty(), false)
    } else {
        let (done, in_run) = dashed(s.drop_last());
        if slug_keeps(s.last()) {
            (done.push(s.last()), false)
        } else if in_run {
            (done, true)
        } else {
            (done.push('-'), true)
        }
    }
}

/// The name of the directory that holds the images of a source file.
pub open spec fn media_slug(name: Seq<char>) -> Seq<char> {
    let base = match file_name(name) {
        Some(file) => stem(file),
        None => name,
    };
    let slug = text::trim_both(dashed(base).0, CharClass::SlugEdge);
    if slug.len() == 0 {
        "source"@
    } else {
        slug
    }
}

/// Tells the name of the directory that holds the images of a source file.
pub fn safe_media_slug(name: &str) -> (r: String)
    ensures
        r@ == media_slug(name@),
{
    let base = match file_stem_of(name) {
        Some(base) => base,
        None => name.to_owned(),
    };
    let v = text::chars_of(base.as_str());
    let mut slug = String::new();
    let mut in_run = false;
    let mut i: usize = 0;
    assert(v@.take(0) =~= Seq::empty());
    while i < v.len()
        invariant
            i <= v@.len(),
            (slug@, in_run) == dashed(v@.take(i as int)),
        decreases v@.len() - i,
    {
        let c = v[i];
        assert(v@.take(i + 1).drop_last() =~= v@.take(i as int));
        if ('a' <= c && c <= 'z') || ('A' <= c && c <= 'Z') || ('0' <= c && c <= '9') || c == '.'
            || c == '_' || c == '-' {
            slug.push(c);
            in_run = false;
        } else if !in_run {
            slug.push('-');
            in_run = true;
        }
        i = i + 1;
    }
    assert(v@.take(v@.len() as int) =~= v@);
    let slug = text::without_edges_of(slug.as_str(), CharClass::SlugEdge);
    if slug.as_str().is_empty() {
        "source".to_owned()
    } else {
        slug
    }
}

proof fn lemma_dashed_keeps(s: Seq<char>)
    ensures
        forall|i: int| 0 <= i < dashed(s).0.len() ==> slug_keeps(#[trigger] dashed(s).0[i]),
    decreases s.len(),
{
    if s.len() > 0 {
        lemma_dashed_keeps(s.drop_last());
        let before = dashed(s.drop_last()).0;
        assert forall|i: int| 0 <= i < dashed(s).0.len() implies slug_keeps(
            #[trigger] dashed(s).0[i],
        ) by {
            if i < before.len() {
                assert(dashed(s).0[i] == before[i]);
            }
        }
    }
}

/// The name of an image directory is never empty, has only letters, digits, dots, underscores
/// and dashes, and neither starts nor ends with a separator.
pub proof fn media_slug_is_safe(name: Seq<char>)
    ensures
        media_slug(name).len() > 0,
        forall|i: int| 0 <= i < media_slug(name).len() ==> slug_keeps(#[trigger] media_slug(name)[i]),
        !CharClass::SlugEdge.has(media_slug(name)[0]),
        !CharClass::SlugEdge.has(media_slug(name).last()),
{
    reveal_strlit("source");
    let base = match file_name(name) {
        Some(file) => stem(file),
        None => name,
    };
    let raw = dashed(base).0;
    lemma_dashed_keeps(base);
    let class = CharClass::SlugEdge;
    let front = text::trim_start(raw, class);
    let slug = text::trim_end(front, class);
    text::trim_start_edge(raw, class);
    text::trim_end_edge(front, class);
    assert forall|i: int| 0 <= i < slug.len() implies slug_keeps(#[trigger] slug[i]) by {
        assert(slug[i] == raw[raw.len() - front.len() + i]);
    }
    if slug.len() > 0 {
        assert(slug[0] == front[0]);
    } else {
        assert("source"@[0] == 's');
        assert("source"@.last() == 'e');
    }
}

/// A part of a path of bytes.
#[derive(Debug)]
pub enum PathPart {
    RootDir,
    CurDir,
    ParentDir,
    Normal(Vec<u8>),
}

impl View for PathPart {
    type V = Part<u8>;

    open spec fn view(&self) -> Part<u8> {
        match self {
            PathPart::RootDir => Part::RootDir,
            PathPart::CurDir => Part::CurDir,
            PathPart::ParentDir => Part::ParentDir,
            PathPart::Normal(name) => Part::Normal(name@),
        }
    }
}

/// The parts that a list of parts stands for.
pub open spec fn part_views(list: Seq<PathPart>) -> Seq<Part<u8>> {
    list.map_values(|part: PathPart| part@)
}

/// The bytes of each piece of a list.
pub open spec fn byte_views(pieces: Seq<Vec<u8>>) -> Seq<Seq<u8>> {
    pieces.map_values(|piece: Vec<u8>| piece@)
}

/// Splits bytes at every separator.
pub fn split_bytes(p: &[u8], sep: u8) -> (pieces: Vec<Vec<u8>>)
    ensures
        byte_views(pieces@) == text::split(p@, sep),
{
    let mut pieces: Vec<Vec<u8>> = Vec::new();
    let mut piece: Vec<u8> = Vec::new();
    let mut i: usize = 0;
    proof {
        assert(p@.take(0) =~= Seq::empty());
        assert(text::split(p@.take(0), sep) =~= byte_views(pieces@).push(piece@));
    }
    while i < p.len()
        invariant
            i <= p@.len(),
            text::split(p@.take(i as int), sep) == byte_views(pieces@).push(piece@),
        decreases p@.len() - i,
    {
        let ghost before = byte_views(pieces@);
        assert(p@.take(i + 1).drop_last() =~= p@.take(i as int));
        if p[i] == sep {
            pieces.push(piece);
            piece = Vec::new();
            assert(byte_views(pieces@) =~= before.push(pieces@.last()@));
            assert(piece@ =~= Seq::empty());
        } else {
            piece.push(p[i]);
            assert(before.push(piece@.drop_last()).drop_last() =~= before);
        }
        i = i + 1;
    }
    assert(p@.take(p@.len() as int) =~= p@);
    let ghost before = byte_views(pieces@);
    pieces.push(piece);
    assert(byte_views(pieces@) =~= before.push(pieces@.last()@));
    pieces
}

/// Whether a piece between two separators stands for a part.
fn stands_for_part(piece: &[u8]) -> (r: bool)
    ensures
        r == (part_of(piece@, 0x2eu8) is Some),
{
    !(piece.len() == 0 || (piece.len() == 1 && piece[0] == 0x2e))
}

/// Takes a path of bytes apart.
pub fn parts_of_bytes(p: &[u8]) -> (r: Vec<PathPart>)
    ensures
        part_views(r@) == byte_parts(p@),
{
    let mut r: Vec<PathPart> = Vec::new();
    if p.len() > 0 && p[0] == 0x2f {
        r.push(PathPart::RootDir);
    } else if p.len() > 0 && p[0] == 0x2e && (p.len() == 1 || p[1] == 0x2f) {
        r.push(PathPart::CurDir);
    }
    let ghost start = start_of(p@, 0x2fu8, 0x2eu8);
    assert(part_views(r@) =~= start);
    let pieces = split_bytes(p, 0x2f);
    let ghost all = text::split(p@, 0x2fu8);
    let mut i: usize = 0;
    proof {
        assert(all.take(0) =~= Seq::empty());
        assert(start + parts_of(all.take(0), 0x2eu8) =~= start);
    }
    while i < pieces.len()
        invariant
            i <= pieces@.len(),
            byte_views(pieces@) == all,
            part_views(r@) == start + parts_of(all.take(i as int), 0x2eu8),
        decreases pieces@.len() - i,
    {
        let piece = &pieces[i];
        let ghost before = r@;
        assert(all[i as int] == piece@);
        assert(all.take(i + 1).drop_last() =~= all.take(i as int));
        if stands_for_part(piece) {
            if piece.len() == 2 && piece[0] == 0x2e && piece[1] == 0x2e {
                r.push(PathPart::ParentDir);
            } else {
                r.push(PathPart::Normal(vstd::slice::slice_to_vec(piece)));
            }
            assert(part_views(r@) =~= part_views(before).push(part_of(piece@, 0x2eu8)->0));
        }
        assert(part_views(r@) =~= start + parts_of(all.take(i + 1), 0x2eu8));
        i = i + 1;
    }
    assert(all.take(all.len() as int) =~= all);
    r
}

/// The pieces behind the first `k` parts.
pub open spec fn behind<T>(pieces: Seq<Seq<T>>, k: nat, dot: T) -> Seq<Seq<T>>
    decreases pieces.len(),
{
    if pieces.len() == 0 {
        pieces
    } else if part_of(pieces[0], dot) is None {
        behind(pieces.drop_first(), k, dot)
    } else if k == 0 {
        pieces
    } else {
        behind(pieces.drop_first(), (k - 1) as nat, dot)
    }
}

/// The pieces up to the last one that stands for a part.
pub open spec fn up_to_last_part<T>(pieces: Seq<Seq<T>>, dot: T) -> Seq<Seq<T>>
    decreases pieces.len(),
{
    if pieces.len() > 0 && part_of(pieces.last(), dot) is None {
        up_to_last_part(pieces.drop_last(), dot)
    } else {
        pieces
    }
}

/// What is left of a path once the path `root` in front of it is taken away; nothing where
/// `root` does not stand in front.
pub open spec fn without_root<T>(path: Seq<T>, root: Seq<T>, slash: T, dot: T) -> Option<Seq<T>> {
    let n = path_parts(root, slash, dot).len();
    let start = start_of(path, slash, dot);
    let pieces = text::split(path, slash);
    if !starts_with(path_parts(path, slash, dot), path_parts(root, slash, dot)) {
        None
    } else if n > 0 {
        Some(
            text::join(
                up_to_last_part(behind(pieces, (n - start.len()) as nat, dot), dot),
                slash,
            ),
        )
    } else if up_to_last_part(pieces, dot).len() <= start.len() {
        Some(path.take(start.len() as int))
    } else {
        Some(text::join(up_to_last_part(pieces, dot), slash))
    }
}

/// What is left of a path of bytes once the path `root` in front of it is taken away.
pub open spec fn below_root(path: Seq<u8>, root: Seq<u8>) -> Option<Seq<u8>> {
    without_root(path, root, 0x2f, 0x2e)
}

/// Joins the pieces from `from` up to `to` with separators.
fn join_pieces(pieces: &[Vec<u8>], from: usize, to: usize) -> (r: Vec<u8>)
    requires
        from <= to <= pieces@.len(),
    ensures
        r@ == text::join(byte_views(pieces@).subrange(from as int, to as int), 0x2fu8),
{
    let mut r: Vec<u8> = Vec::new();
    let ghost all = byte_views(pieces@);
    let mut i: usize = from;
    assert(all.subrange(from as int, from as int) =~= Seq::empty());
    while i < to
        invariant
            from <= i <= to <= pieces@.len(),
            all == byte_views(pieces@),
            r@ == text::join(all.subrange(from as int, i as int), 0x2fu8),
        decreases to - i,
    {
        let ghost now = all.subrange(from as int, i + 1);
        proof {
            assert(now.drop_last() =~= all.subrange(from as int, i as int));
            assert(now.last() == pieces@[i as int]@);
        }
        if i > from {
            r.push(0x2f);
        }
        let mut k: usize = 0;
        let ghost head = r@;
        let piece = &pieces[i];
        while k < piece.len()
            invariant
                k <= piece@.len(),
                r@ == head + piece@.take(k as int),
            decreases piece@.len() - k,
        {
            r.push(piece[k]);
            assert(r@ =~= head + piece@.take(k + 1));
            k = k + 1;
        }
        proof {
            assert(piece@.take(k as int) =~= piece@);
            if i == from {
                assert(head =~= Seq::empty());
                assert(r@ =~= now[0]);
            }
        }
        i = i + 1;
    }
    r
}

/// Takes the path `root` in front of a path away.
pub fn strip_root(path: &[u8], root: &[u8]) -> (r: Option<Vec<u8>>)
    ensures
        match r {
            Some(rest) => below_root(path@, root@) == Some(rest@),
            None => below_root(path@, root@) is None,
        },
{
    let path_list = parts_of_bytes(path);
    let root_list = parts_of_bytes(root);
    if !path_starts_with(&path_list, &root_list) {
        return None;
    }
    let ghost start = start_of(path@, 0x2fu8, 0x2eu8);
    let start_len: usize = if path.len() > 0 && (path[0] == 0x2f || (path[0] == 0x2e && (path.len()
        == 1 || path[1] == 0x2f))) {
        1
    } else {
        0
    };
    assert(start_len == start.len());
    let pieces = split_bytes(path, 0x2f);
    let ghost all = text::split(path@, 0x2fu8);
    let n: usize = root_list.len();
    assert(n == byte_parts(root@).len());
    let mut from: usize = 0;
    if n > 0 {
        proof {
            if n < start_len {
                assert(false);
            }
            assert(all.skip(0) =~= all);
        }
        let mut left: usize = n - start_len;
        while from < pieces.len() && (left > 0 || !stands_for_part(&pieces[from]))
            invariant
                from <= pieces@.len(),
                byte_views(pieces@) == all,
                behind(all, (n - start_len) as nat, 0x2eu8) == behind(
                    all.skip(from as int),
                    left as nat,
                    0x2eu8,
                ),
            decreases pieces@.len() - from,
        {
            proof {
                assert(all.skip(from as int)[0] == pieces@[from as int]@);
                assert(all.skip(from as int).drop_first() =~= all.skip(from + 1));
            }
            if stands_for_part(&pieces[from]) {
                left = left - 1;
            }
            from = from + 1;
        }
        proof {
            if from < pieces@.len() {
                assert(all.skip(from as int)[0] == pieces@[from as int]@);
            }
            assert(behind(all, (n - start_len) as nat, 0x2eu8) == all.skip(from as int));
        }
    } else {
        assert(all.skip(0) =~= all);
    }
    let mut to: usize = pieces.len();
    assert(all.skip(from as int) =~= all.subrange(from as int, to as int));
    while to > from && !stands_for_part(&pieces[to - 1])
        invariant
            from <= to <= pieces@.len(),
            byte_views(pieces@) == all,
            up_to_last_part(all.skip(from as int), 0x2eu8) == up_to_last_part(
                all.subrange(from as int, to as int),
                0x2eu8,
            ),
        decreases to,
    {
        proof {
            assert(all.subrange(from as int, to as int).last() == pieces@[to - 1]@);
            assert(all.subrange(from as int, to as int).drop_last() =~= all.subrange(
                from as int,
                to - 1,
            ));
        }
        to = to - 1;
    }
    proof {
        if to > from {
            assert(all.subrange(from as int, to as int).last() == pieces@[to - 1]@);
        }
        assert(up_to_last_part(all.skip(from as int), 0x2eu8) == all.subrange(
            from as int,
            to as int,
        ));
    }
    if n == 0 && to <= start_len {
        assert(path@.take(start_len as int) =~= path@.subrange(0, start_len as int));
        return Some(vstd::slice::slice_to_vec(vstd::slice::slice_subrange(path, 0, start_len)));
    }
    Some(join_pieces(&pieces, from, to))
}

/// The path as the service shows it: below the project where it lies there, with forward
/// separators.
pub open spec fn shown_path(project_path: Seq<char>, path: Seq<u8>) -> Seq<char> {
    match below_root(path, encode_utf8(project_path)) {
        Some(rest) => text::replace(text::lossy(rest), '\\', '/'),
        None => text::replace(text::lossy(path), '\\', '/'),
    }
}

/// Tells the path as the service shows it.
pub fn relative_to_project(project_path: &str, path: &[u8]) -> (r: String)
    ensures
        r@ == shown_path(project_path@, path@),
{
    match strip_root(path, project_path.as_bytes()) {
        Some(rest) => text::replaced(text::lossy_text(&rest).as_str(), '\\', '/'),
        None => text::replaced(text::lossy_text(path).as_str(), '\\', '/'),
    }
}

/// The name of the file that a path of bytes ends with, if it is UTF-8.
pub open spec fn byte_file_name(path: Seq<u8>) -> Option<Seq<char>> {
    match last_name(byte_parts(path)) {
        Some(name) => if valid_utf8(name) {
            Some(decode_utf8(name))
        } else {
            None
        },
        None => None,
    }
}

/// The stem of the file that a path of bytes ends with, if it is UTF-8.
pub open spec fn byte_stem(path: Seq<u8>) -> Option<Seq<char>> {
    match last_name(byte_parts(path)) {
        Some(name) => if valid_utf8(stem_in(name, 0x2eu8)) {
            Some(decode_utf8(stem_in(name, 0x2eu8)))
        } else {
            None
        },
        None => None,
    }
}

/// The extension of the file that a path of bytes ends with, if it is UTF-8.
pub open spec fn byte_extension(path: Seq<u8>) -> Option<Seq<char>> {
    match last_name(byte_parts(path)) {
        Some(name) => match extension_in(name, 0x2eu8) {
            Some(ext) => if valid_utf8(ext) {
                Some(decode_utf8(ext))
            } else {
                None
            },
            None => None,
        },
        None => None,
    }
}

/// Tells the bytes of the name of the file that a path ends with.
fn last_name_of(path: &[u8]) -> (r: Option<Vec<u8>>)
    ensures
        match r {
            Some(name) => last_name(byte_parts(path@)) == Some(name@),
            None => last_name(byte_parts(path@)) is None,
        },
{
    let list = parts_of_bytes(path);
    let len: usize = list.len();
    if len == 0 {
        return None;
    }
    assert(byte_parts(path@).last() == list@[len - 1]@);
    match &list[len - 1] {
        PathPart::Normal(name) => Some(vstd::slice::slice_to_vec(name)),
        _ => None,
    }
}

/// Finds the dot before the extension of a file name of bytes.
fn find_byte_dot(v: &[u8]) -> (r: Option<usize>)
    ensures
        match r {
            Some(at) => last_dot(v@, 0x2eu8) == Some(at as int) && 0 < at < v@.len(),
            None => last_dot(v@, 0x2eu8) is None,
        },
{
    let mut k: usize = v.len();
    assert(v@.take(k as int) =~= v@);
    while k > 0 && v[k - 1] != 0x2e
        invariant
            k <= v@.len(),
            after_last(v@, 0x2eu8) == v@.len() - k + after_last(v@.take(k as int), 0x2eu8),
        decreases k,
    {
        assert(v@.take(k as int).drop_last() =~= v@.take(k - 1));
        k = k - 1;
    }
    if k > 1 {
        Some(k - 1)
    } else {
        None
    }
}

/// Tells the name of the file that a path of bytes ends with.
pub fn byte_file_name_of(path: &[u8]) -> (r: Option<String>)
    ensures
        match r {
            Some(name) => byte_file_name(path@) == Some(name@),
            None => byte_file_name(path@) is None,
        },
{
    match last_name_of(path) {
        Some(name) => text::utf8_text(&name),
        None => None,
    }
}

/// Tells the stem of the file that a path of bytes ends with.
pub fn byte_stem_of(path: &[u8]) -> (r: Option<String>)
    ensures
        match r {
            Some(name) => byte_stem(path@) == Some(name@),
            None => byte_stem(path@) is None,
        },
{
    match last_name_of(path) {
        Some(name) => match find_byte_dot(&name) {
            Some(at) => {
                assert(name@.take(at as int) =~= name@.subrange(0, at as int));
                text::utf8_text(vstd::slice::slice_subrange(&name, 0, at))
            },
            None => text::utf8_text(&name),
        },
        None => None,
    }
}

/// Tells the extension of the file that a path of bytes ends with.
pub fn byte_extension_of(path: &[u8]) -> (r: Option<String>)
    ensures
        match r {
            Some(name) => byte_extension(path@) == Some(name@),
            None => byte_extension(path@) is None,
        },
{
    match last_name_of(path) {
        Some(name) => match find_byte_dot(&name) {
            Some(at) => {
                let end: usize = name.len();
                assert(name@.skip(at + 1) =~= name@.subrange(at + 1, end as int));
                text::utf8_text(vstd::slice::slice_subrange(&name, at + 1, end))
            },
            None => None,
        },
        None => None,
    }
}

/// The parts that are left when each `..` takes the named part before it away and each `.` is
/// dropped.
pub open spec fn normal_parts<T>(list: Seq<Part<T>>) -> Seq<Part<T>>
    decreases list.len(),
{
    if list.len() == 0 {
        Seq::empty()
    } else {
        let before = normal_parts(list.drop_last());
        match list.last() {
            Part::CurDir => before,
            Part::ParentDir => if before.len() > 0 && before.last() is Normal {
                before.drop_last()
            } else {
                before
            },
            part => before.push(part),
        }
    }
}

/// Takes the parts `.` and `..` out of a path.
pub fn normalize_path_components(list: Vec<PathPart>) -> (r: Vec<PathPart>)
    ensures
        part_views(r@) == normal_parts(part_views(list@)),
{
    let mut r: Vec<PathPart> = Vec::new();
    let ghost all = part_views(list@);
    assert(all.take(0) =~= Seq::empty());
    assert(part_views(r@) =~= Seq::empty());
    for part in it: list
        invariant
            it.seq() == list@,
            all == part_views(list@),
            part_views(r@) == normal_parts(all.take(it.index() as int)),
    {
        let ghost n = it.index() as int;
        let ghost before = r@;
        assert(all.take(n + 1).drop_last() =~= all.take(n));
        assert(all.take(n + 1).last() == part@);
        match part {
            PathPart::CurDir => {},
            PathPart::ParentDir => {
                let len: usize = r.len();
                let named = if len > 0 {
                    match &r[len - 1] {
                        PathPart::Normal(_) => true,
                        _ => false,
                    }
                } else {
                    false
                };
                assert(named == (part_views(before).len() > 0 && part_views(
                    before,
                ).last() is Normal));
                if named {
                    let _gone = r.pop();
                    assert(part_views(r@) =~= part_views(before).drop_last());
                }
            },
            PathPart::RootDir => {
                r.push(PathPart::RootDir);
                assert(part_views(r@) =~= part_views(before).push(Part::RootDir));
            },
            PathPart::Normal(name) => {
                r.push(PathPart::Normal(name));
                assert(part_views(r@) =~= part_views(before).push(Part::Normal(name@)));
            },
        }
    }
    assert(all.take(list@.len() as int) =~= all);
    r
}

/// Whether two byte sequences are the same.
pub fn same_bytes(a: &[u8], b: &[u8]) -> (r: bool)
    ensures
        r == (a@ == b@),
{
    if a.len() != b.len() {
        return false;
    }
    let mut i: usize = 0;
    while i < a.len()
        invariant
            i <= a@.len(),
            a@.len() == b@.len(),
            forall|j: int| 0 <= j < i ==> a@[j] == b@[j],
        decreases a@.len() - i,
    {
        if a[i] != b[i] {
            return false;
        }
        i = i + 1;
    }
    assert(a@ =~= b@);
    true
}

/// Whether two parts are the same.
fn same_part(a: &PathPart, b: &PathPart) -> (r: bool)
    ensures
        r == (a@ == b@),
{
    match (a, b) {
        (PathPart::RootDir, PathPart::RootDir) => true,
        (PathPart::CurDir, PathPart::CurDir) => true,
        (PathPart::ParentDir, PathPart::ParentDir) => true,
        (PathPart::Normal(x), PathPart::Normal(y)) => same_bytes(x, y),
        _ => false,
    }
}

/// Tests whether the parts of `root` begin the parts of `path`.
pub fn path_starts_with(path: &[PathPart], root: &[PathPart]) -> (r: bool)
    ensures
        r == starts_with(part_views(path@), part_views(root@)),
{
    if root.len() > path.len() {
        return false;
    }
    let ghost whole = part_views(path@);
    let ghost begin = part_views(root@);
    let mut i: usize = 0;
    while i < root.len()
        invariant
            i <= root@.len() <= path@.len(),
            whole == part_views(path@),
            begin == part_views(root@),
            forall|j: int| 0 <= j < i ==> whole[j] == begin[j],
        decreases root@.len() - i,
    {
        assert(whole[i as int] == path@[i as int]@);
        assert(begin[i as int] == root@[i as int]@);
        if !same_part(&path[i], &root[i]) {
            assert(whole.take(begin.len() as int)[i as int] != begin[i as int]);
            return false;
        }
        i = i + 1;
    }
    assert(whole.take(begin.len() as int) =~= begin);
    true
}

/// What is put below a directory stands behind it and a separator, with none added where there is
/// one; an absolute path stands for itself, and below nothing a path stands alone.
pub proof fn join_puts_below(base: Seq<char>, rest: Seq<char>)
    ensures
        rest.len() > 0 && rest[0] == '/' ==> join(base, rest) == rest,
        rest.len() == 0 || rest[0] != '/' ==> {
            &&& base.len() > 0 && base.last() != '/' ==> join(base, rest) == base + seq!['/'] + rest
            &&& base.len() > 0 && base.last() == '/' ==> join(base, rest) == base + rest
            &&& base.len() == 0 ==> join(base, rest) == rest
        },
{
    if base.len() == 0 {
        assert(base + rest =~= rest);
    }
    assert(base.push('/') + rest =~= base + seq!['/'] + rest);
}

/// Empty pieces of a path and single dots are no parts, two dots lead up, and any other piece is a
/// name.
pub proof fn pieces_are_parts(piece: Seq<char>)
    ensures
        part_of(Seq::<char>::empty(), '.') is None,
        part_of(seq!['.'], '.') is None,
        part_of(seq!['.', '.'], '.') == Some(Part::<char>::ParentDir),
        piece.len() > 0 && piece != seq!['.'] && piece != seq!['.', '.'] ==> part_of(piece, '.')
            == Some(Part::Normal(piece)),
{
    if piece.len() == 1 {
        assert(piece =~= seq![piece[0]]);
    } else if piece.len() == 2 {
        assert(piece =~= seq![piece[0], piece[1]]);
    }
}

/// The parts of a path are those of its pieces between the separators, in order, behind the root
/// if it begins with a separator, or behind a single dot that it begins with.
pub proof fn parts_go_piece_by_piece(a: Seq<char>, b: Seq<char>, name: Seq<char>)
    requires
        a.len() > 0,
        name.len() > 0,
        !name.contains('/'),
        name != seq!['.'],
        name != seq!['.', '.'],
        b.len() == 0 || b[0] != '/',
    ensures
        parts(a + seq!['/'] + b) == parts(a) + parts_of(text::split(b, '/'), '.'),
        parts(seq!['/']) == seq![Part::<char>::RootDir],
        parts(seq!['.']) == seq![Part::<char>::CurDir],
        parts(Seq::empty()).len() == 0,
        parts(name) == seq![Part::Normal(name)],
        parts(a + seq!['/'] + name) == parts(a) + seq![Part::Normal(name)],
        parts(a + seq!['/', '.', '.']) == parts(a) + seq![Part::<char>::ParentDir],
{
    let up = seq!['.', '.'];
    pieces_are_parts(name);
    lemma_below(a, b);
    lemma_below(a, name);
    lemma_below(a, up);
    assert(a + seq!['/'] + up =~= a + seq!['/', '.', '.']);
    lemma_one_piece(name);
    lemma_one_piece(up);
    lemma_one_piece(seq!['.']);
    let none = Seq::<char>::empty();
    text::split_keeps_whole(none, '/');
    text::split_parts_at_separator(none, none, '/');
    assert(none.push('/') + none =~= seq!['/']);
    reveal_with_fuel(parts_of, 3);
    assert(parts_of(seq![none] + seq![none], '.') =~= Seq::empty()) by {
        let two = seq![none] + seq![none];
        assert(two.drop_last() =~= seq![none]);
        assert(seq![none].drop_last() =~= Seq::empty());
    }
    assert(parts_of(seq![none], '.') =~= Seq::empty()) by {
        assert(seq![none].drop_last() =~= Seq::empty());
    }
    assert(parts(seq!['/']) =~= seq![Part::<char>::RootDir]);
    assert(parts(seq!['.']) =~= seq![Part::<char>::CurDir]);
    assert(start_of(name, '/', '.') =~= Seq::empty()) by {
        assert(name.contains(name[0]));
        if name.len() > 1 {
            assert(name.contains(name[1]));
        } else {
            assert(name =~= seq![name[0]]);
        }
    }
    assert(parts(name) =~= seq![Part::Normal(name)]);
}

proof fn lemma_below(a: Seq<char>, b: Seq<char>)
    requires
        a.len() > 0,
    ensures
        parts(a + seq!['/'] + b) == parts(a) + parts_of(text::split(b, '/'), '.'),
{
    let whole = a + seq!['/'] + b;
    assert(whole =~= a.push('/') + b);
    text::split_parts_at_separator(a, b, '/');
    lemma_parts_concat(text::split(a, '/'), text::split(b, '/'), '.');
    assert(start_of(whole, '/', '.') =~= start_of(a, '/', '.'));
    assert(parts(whole) =~= parts(a) + parts_of(text::split(b, '/'), '.'));
}

proof fn lemma_one_piece(piece: Seq<char>)
    requires
        !piece.contains('/'),
    ensures
        parts_of(text::split(piece, '/'), '.') == (match part_of(piece, '.') {
            Some(part) => seq![part],
            None => Seq::empty(),
        }),
{
    text::split_keeps_whole(piece, '/');
    let one = seq![piece];
    assert(one.drop_last() =~= Seq::empty());
    assert(parts_of(one.drop_last(), '.') =~= Seq::empty());
    assert(one.last() == piece);
    match part_of(piece, '.') {
        Some(part) => {
            assert(parts_of(one, '.') =~= seq![part]);
        },
        None => {},
    }
}

/// The name of the file that a path ends with is the name behind its last separator, whatever
/// stands before it.
pub proof fn plain_name_is_file_name(dir: Seq<char>, name: Seq<char>)
    requires
        name.len() > 0,
        !name.contains('/'),
        name != seq!['.'],
        name != seq!['.', '.'],
    ensures
        file_name(name) == Some(name),
        file_name(dir + seq!['/'] + name) == Some(name),
        name_from_path(dir + seq!['/'] + name) == name,
        file_name(Seq::empty()) is None,
        name_from_path(Seq::empty()) == "Project"@,
{
    pieces_are_parts(name);
    parts_go_piece_by_piece(seq!['a'], Seq::empty(), name);
    if dir.len() > 0 {
        parts_go_piece_by_piece(dir, Seq::empty(), name);
        assert(parts(dir + seq!['/'] + name).last() == Part::Normal(name));
    } else {
        let none = Seq::<char>::empty();
        assert(dir + seq!['/'] + name =~= none.push('/') + name);
        text::split_parts_at_separator(none, name, '/');
        text::split_keeps_whole(none, '/');
        lemma_parts_concat(text::split(none, '/'), text::split(name, '/'), '.');
        lemma_one_piece(name);
        let path = none.push('/') + name;
        assert(parts_of(text::split(path, '/'), '.').last() == Part::Normal(name));
        assert(parts(path).last() == Part::Normal(name));
    }
}

/// The extension of a file name stands behind its last dot, and the stem before it; a name without
/// a dot, or with its only one in front, is all stem.
pub proof fn extension_stands_behind_last_dot<T>(stem: Seq<T>, ext: Seq<T>, dot: T)
    requires
        stem.len() > 0,
        !ext.contains(dot),
    ensures
        stem_in(stem.push(dot) + ext, dot) == stem,
        extension_in(stem.push(dot) + ext, dot) == Some(ext),
        stem_in(ext, dot) == ext,
        extension_in(ext, dot) is None,
        stem_in(seq![dot] + ext, dot) == seq![dot] + ext,
        extension_in(seq![dot] + ext, dot) is None,
{
    let name = stem.push(dot) + ext;
    let hidden = seq![dot] + ext;
    lemma_after_last(stem.push(dot), ext, dot);
    lemma_after_last(Seq::empty(), ext, dot);
    lemma_after_last(seq![dot], ext, dot);
    assert(Seq::<T>::empty() + ext =~= ext);
    assert(name.take(stem.len() as int) =~= stem);
    assert(name.skip(stem.len() + 1int) =~= ext);
}

proof fn lemma_after_last<T>(front: Seq<T>, ext: Seq<T>, dot: T)
    requires
        !ext.contains(dot),
        front.len() == 0 || front.last() == dot,
    ensures
        after_last(front + ext, dot) == ext.len(),
    decreases ext.len(),
{
    let all = front + ext;
    if ext.len() > 0 {
        assert(ext.contains(ext.last()));
        assert(all.drop_last() =~= front + ext.drop_last());
        assert forall|i: int| 0 <= i < ext.drop_last().len() implies ext.drop_last()[i] != dot by {
            assert(ext.contains(ext[i]));
        }
        lemma_after_last(front, ext.drop_last(), dot);
    } else {
        assert(all =~= front);
    }
}

/// A relative path is accepted where it leads nowhere up, and stands below the project as it is;
/// separators in front of it are dropped. Any path with two dots for a part is refused.
pub proof fn relative_path_is_accepted(
    platform: Platform,
    project_path: Seq<char>,
    rel: Seq<char>,
    k: int,
)
    requires
        platform != Platform::Windows,
        rel.len() > 0,
        rel[0] != '/',
    ensures
        (forall|i: int|
            0 <= i < text::split(rel, '/').len() ==> #[trigger] text::split(rel, '/')[i] != seq![
                '.',
                '.',
            ]) ==> inside(platform, project_path, rel) == Ok::<Seq<char>, Seq<char>>(
            join(project_path, rel),
        ),
        inside(platform, project_path, seq!['/'] + rel) == inside(platform, project_path, rel),
        0 <= k < text::split(rel, '/').len() && text::split(rel, '/')[k] == seq!['.', '.'] ==> inside(
            platform,
            project_path,
            rel,
        ) == Err::<Seq<char>, Seq<char>>("Path traversal is not allowed"@),
{
    let pieces = text::split(rel, '/');
    text::trim_keeps_plain(rel.take(1), CharClass::Only('/'));
    assert(text::trim_start(rel, CharClass::Only('/')) == rel);
    assert((seq!['/'] + rel).drop_first() =~= rel);
    lemma_parts_contain(pieces, '.', Part::<char>::ParentDir);
    let start = start_of(rel, '/', '.');
    let named = parts_of(pieces, '.');
    if parts(rel).contains(Part::ParentDir) {
        let j = parts(rel).index_of(Part::ParentDir);
        assert(parts(rel)[j] == Part::<char>::ParentDir);
        assert(j >= start.len());
        assert(named[j - start.len()] == Part::<char>::ParentDir);
        assert(named.contains(Part::ParentDir));
        let i = choose|i: int|
            0 <= i < pieces.len() && part_of(#[trigger] pieces[i], '.') == Some(
                Part::<char>::ParentDir,
            );
        assert(pieces[i] =~= seq!['.', '.']);
    }
    if 0 <= k < pieces.len() && pieces[k] == seq!['.', '.'] {
        pieces_are_parts(pieces[k]);
        assert(named.contains(Part::ParentDir));
        let j = named.index_of(Part::ParentDir);
        assert(parts(rel)[j + start.len()] == Part::<char>::ParentDir);
    }
}

/// On Windows a path is read with separators of either kind. It is refused if it names a drive or
/// begins with a separator of the other kind, and if a part of it leads up; any other stands below
/// the project, with forward separators.
pub proof fn windows_path_is_judged(project_path: Seq<char>, rel: Seq<char>)
    requires
        rel.len() > 0,
        rel[0] != '/',
    ensures
        ({
            let p = text::replace(rel, '\\', '/');
            let named = rel.len() >= 2 && rel[1] == ':' && ('a' <= rel[0] <= 'z' || 'A' <= rel[0]
                <= 'Z');
            let up = exists|i: int|
                0 <= i < text::split(p, '/').len() && #[trigger] text::split(p, '/')[i] == seq![
                    '.',
                    '.',
                ];
            match inside(Platform::Windows, project_path, rel) {
                Ok(path) => !named && rel[0] != '\\' && !up && path == join(project_path, p),
                Err(_) => named || rel[0] == '\\' || up,
            }
        }),
{
    let p = text::replace(rel, '\\', '/');
    text::replace_is_exact(rel, '\\', '/');
    assert(text::trim_start(rel, CharClass::Only('/')) == rel);
    assert(p[0] == '/' <==> rel[0] == '\\');
    if rel.len() >= 2 {
        assert(p[1] == ':' <==> rel[1] == ':');
    }
    let pieces = text::split(p, '/');
    lemma_parts_contain(pieces, '.', Part::<char>::ParentDir);
    let start = start_of(p, '/', '.');
    let named = parts_of(pieces, '.');
    if parts(p).contains(Part::ParentDir) {
        let j = parts(p).index_of(Part::ParentDir);
        assert(parts(p)[j] == Part::<char>::ParentDir);
        assert(j >= start.len());
        assert(named[j - start.len()] == Part::<char>::ParentDir);
        assert(named.contains(Part::ParentDir));
        let i = choose|i: int|
            0 <= i < pieces.len() && part_of(#[trigger] pieces[i], '.') == Some(
                Part::<char>::ParentDir,
            );
        assert(pieces[i] =~= seq!['.', '.']);
    }
    if exists|i: int| 0 <= i < pieces.len() && #[trigger] pieces[i] == seq!['.', '.'] {
        let i = choose|i: int| 0 <= i < pieces.len() && #[trigger] pieces[i] == seq!['.', '.'];
        pieces_are_parts(pieces[i]);
        assert(named.contains(Part::ParentDir));
        let j = named.index_of(Part::ParentDir);
        assert(parts(p)[j + start.len()] == Part::<char>::ParentDir);
    }
}

/// A path is absolute if it begins at the root: with a separator, and on Windows with a drive and
/// a separator or with the two names of a share.
pub proof fn absolute_paths_are_told(rest: Seq<char>, drive: char, a: char, b: char, c: char, server: Seq<char>, share: Seq<char>)
    requires
        'a' <= drive <= 'z' || 'A' <= drive <= 'Z',
        a == '/' || a == '\\',
        b == '/' || b == '\\',
        c == '/' || c == '\\',
        server.len() > 0 && share.len() > 0,
        !server.contains('/') && !server.contains('\\'),
        !share.contains('/') && !share.contains('\\'),
    ensures
        is_absolute(Platform::Other, seq!['/'] + rest),
        is_absolute(Platform::MacOs, seq!['/'] + rest),
        rest.len() == 0 || rest[0] != '/' ==> !is_absolute(Platform::Other, rest) && !is_absolute(
            Platform::MacOs,
            rest,
        ),
        is_absolute(Platform::Windows, seq![drive, ':', a] + rest),
        rest.len() == 0 || (rest[0] != '/' && rest[0] != '\\') ==> !is_absolute(
            Platform::Windows,
            seq![drive, ':'] + rest,
        ),
        is_absolute(Platform::Windows, seq![a, b] + server + seq![c] + share),
        rest.len() == 0 || (rest[0] != '/' && rest[0] != '\\') ==> !is_absolute(
            Platform::Windows,
            seq![a] + rest,
        ),
{
    let w = Platform::Windows;
    let p = seq![drive, ':', a] + rest;
    assert(slashed(w, p)[0] == drive && slashed(w, p)[1] == ':' && slashed(w, p)[2] == '/');
    let q = seq![drive, ':'] + rest;
    assert(slashed(w, q)[0] == drive && slashed(w, q)[1] == ':');
    if rest.len() > 0 {
        assert(slashed(w, q)[2] == (if rest[0] == '\\' {
            '/'
        } else {
            rest[0]
        }));
    }
    let s = seq![a, b] + server + seq![c] + share;
    let t = slashed(w, s);
    text::replace_is_exact(server, '\\', '/');
    text::replace_is_exact(share, '\\', '/');
    assert(t =~= seq!['/', '/'] + server + seq!['/'] + share);
    assert(t.skip(2) =~= server.push('/') + share);
    text::cut_is_at_first(server, share, '/');
    text::cut_is_at_first(share, Seq::empty(), '/');
    text::first_index_bounds(server.push('/') + share, '/');
    lemma_first_separator(server, share);
    assert(t.skip(server.len() + 3int) =~= share);
    text::first_index_bounds(share, '/');
    if text::first_index(share, '/') < share.len() {
        assert(share.contains(share[text::first_index(share, '/')]));
    }
    assert(t[0] == '/' && t[1] == '/');
    let r = seq![a] + rest;
    assert(slashed(w, r)[0] == '/');
    if rest.len() > 0 && rest[0] != '\\' {
        assert(slashed(w, r)[1] == rest[0]);
    }
}

proof fn lemma_first_separator(a: Seq<char>, b: Seq<char>)
    requires
        !a.contains('/'),
    ensures
        text::first_index(a.push('/') + b, '/') == a.len(),
{
    let s = a.push('/') + b;
    text::first_index_bounds(s, '/');
    let i = text::first_index(s, '/');
    assert(s[a.len() as int] == '/');
    if i < a.len() {
        assert(a.contains(a[i]));
    }
}

/// What is put below a directory under a plain name stands there, on every platform.
pub proof fn plain_name_is_put_below(platform: Platform, base: Seq<char>, name: Seq<char>)
    requires
        name.len() > 0,
        !name.contains('/'),
        !name.contains('\\'),
        !name.contains(':'),
    ensures
        join_named(platform, base, name) == join(base, name),
        platform != Platform::Windows ==> slashed(platform, base) == base,
        slashed(Platform::Windows, base) == text::replace(base, '\\', '/'),
{
    text::replace_is_exact(name, '\\', '/');
    assert(name.contains(name[0]));
    if name.len() > 1 {
        assert(name.contains(name[1]));
    }
}

/// A path in normal form has forward separators and none at the end, and is the path with forward
/// separators but for those.
pub proof fn normal_path_is_bare(path: Seq<char>)
    ensures
        ({
            let n = normal_path(path);
            let p = text::replace(path, '\\', '/');
            &&& !n.contains('\\')
            &&& n.len() > 0 ==> n.last() != '/'
            &&& n.len() <= p.len()
            &&& n == p.take(n.len() as int)
            &&& forall|i: int| n.len() <= i < p.len() ==> #[trigger] p[i] == '/'
        }),
{
    let p = text::replace(path, '\\', '/');
    let n = normal_path(path);
    text::replace_is_exact(path, '\\', '/');
    text::trim_end_edge(p, CharClass::Only('/'));
    lemma_slashes_trimmed(p);
    if n.contains('\\') {
        let i = n.index_of('\\');
        assert(p[i] == '\\');
        assert(p.contains(p[i]));
    }
}

proof fn lemma_slashes_trimmed(p: Seq<char>)
    ensures
        forall|i: int|
            text::trim_end(p, CharClass::Only('/')).len() <= i < p.len() ==> #[trigger] p[i] == '/',
    decreases p.len(),
{
    let class = CharClass::Only('/');
    if p.len() > 0 && class.has(p.last()) {
        lemma_slashes_trimmed(p.drop_last());
        assert forall|i: int| text::trim_end(p, class).len() <= i < p.len() implies #[trigger] p[i]
            == '/' by {
            if i < p.len() - 1 {
                assert(p.drop_last()[i] == p[i]);
            }
        }
    }
}

/// Two paths name one project if their normal forms are the same, and on Windows also if these
/// differ in the case of their letters alone.
pub proof fn project_paths_are_compared(a: Seq<char>, b: Seq<char>)
    ensures
        same_project_path(a, b, Platform::Other) <==> normal_path(a) == normal_path(b),
        same_project_path(a, b, Platform::MacOs) <==> normal_path(a) == normal_path(b),
        same_project_path(a, b, Platform::Windows) <==> text::ascii_lower(normal_path(a))
            == text::ascii_lower(normal_path(b)),
{
}

proof fn lemma_behind_parts<T>(a: Seq<Seq<T>>, b: Seq<Seq<T>>, dot: T)
    requires
        b.len() > 0,
        part_of(b[0], dot) is Some,
    ensures
        behind(a + b, parts_of(a, dot).len(), dot) == b,
    decreases a.len(),
{
    let all = a + b;
    if a.len() == 0 {
        assert(all =~= b);
    } else {
        let rest = a.drop_first();
        assert(all.drop_first() =~= rest + b);
        assert(all[0] == a[0]);
        assert(a =~= seq![a[0]] + rest);
        lemma_parts_concat(seq![a[0]], rest, dot);
        let one = seq![a[0]];
        assert(one.drop_last() =~= Seq::empty());
        assert(parts_of(one.drop_last(), dot) =~= Seq::empty());
        lemma_behind_parts(rest, b, dot);
    }
}

proof fn lemma_left_below<T>(root: Seq<T>, rest: Seq<T>, slash: T, dot: T)
    requires
        root.len() > 0,
        path_parts(root, slash, dot).len() > 0,
        part_of(text::split(rest, slash)[0], dot) is Some,
        part_of(text::split(rest, slash).last(), dot) is Some,
    ensures
        without_root(root.push(slash) + rest, root, slash, dot) == Some(rest),
{
    let path = root.push(slash) + rest;
    let a = text::split(root, slash);
    let b = text::split(rest, slash);
    text::split_parts_at_separator(root, rest, slash);
    text::lemma_split_len(rest, slash);
    lemma_parts_concat(a, b, dot);
    assert(start_of(path, slash, dot) =~= start_of(root, slash, dot));
    let whole = path_parts(path, slash, dot);
    let front = path_parts(root, slash, dot);
    assert(whole =~= front + parts_of(b, dot));
    assert(whole.take(front.len() as int) =~= front);
    lemma_behind_parts(a, b, dot);
    assert(up_to_last_part(b, dot) == b);
    text::pieces_make_text(rest, slash);
}

/// A file below the project is shown by its path below the project, and one elsewhere by its whole
/// path, with forward separators.
pub proof fn path_below_project_is_shown(project_path: Seq<char>, rest: Seq<char>)
    requires
        project_path.len() > 0,
        parts(project_path).len() > 0,
        byte_parts(encode_utf8(project_path)).len() > 0,
        part_of(text::split(encode_utf8(rest), 0x2f)[0], 0x2eu8) is Some,
        part_of(text::split(encode_utf8(rest), 0x2f).last(), 0x2eu8) is Some,
    ensures
        shown_path(project_path, encode_utf8(project_path).push(0x2f) + encode_utf8(rest))
            == text::replace(rest, '\\', '/'),
        !starts_with(byte_parts(encode_utf8(rest)), byte_parts(encode_utf8(project_path)))
            ==> shown_path(project_path, encode_utf8(rest)) == text::replace(rest, '\\', '/'),
{
    assert(encode_utf8(project_path).len() > 0) by {
        if encode_utf8(project_path).len() == 0 {
            encode_utf8_decode_utf8(project_path);
            assert(encode_utf8(project_path) =~= encode_utf8(Seq::empty()));
            encode_utf8_decode_utf8(Seq::empty());
        }
    }
    lemma_left_below(encode_utf8(project_path), encode_utf8(rest), 0x2fu8, 0x2eu8);
    text::encoded_text_is_shown(rest);
}

proof fn lemma_normal_depends<T>(a: Seq<Part<T>>, c: Seq<Part<T>>, b: Seq<Part<T>>)
    requires
        normal_parts(a) == normal_parts(c),
    ensures
        normal_parts(a + b) == normal_parts(c + b),
    decreases b.len(),
{
    if b.len() == 0 {
        assert(a + b =~= a);
        assert(c + b =~= c);
    } else {
        lemma_normal_depends(a, c, b.drop_last());
        assert((a + b).drop_last() =~= a + b.drop_last());
        assert((c + b).drop_last() =~= c + b.drop_last());
    }
}

/// In the normal form of a path a single dot counts for nothing, a name and two dots behind it for
/// nothing too, and names alone are kept.
pub proof fn dots_are_taken_out<T>(a: Seq<Part<T>>, name: Seq<T>, b: Seq<Part<T>>)
    ensures
        normal_parts(a + seq![Part::CurDir] + b) == normal_parts(a + b),
        normal_parts(a + seq![Part::Normal(name), Part::ParentDir] + b) == normal_parts(a + b),
        normal_parts(a.push(Part::Normal(name))) == normal_parts(a).push(Part::Normal(name)),
        normal_parts(a.push(Part::RootDir)) == normal_parts(a).push(Part::RootDir),
        normal_parts(seq![Part::RootDir, Part::<T>::ParentDir]) == seq![Part::<T>::RootDir],
{
    let dot = a + seq![Part::CurDir];
    assert(dot.drop_last() =~= a);
    lemma_normal_depends(dot, a, b);
    let named = a.push(Part::Normal(name));
    assert(named.drop_last() =~= a);
    let up = a + seq![Part::Normal(name), Part::ParentDir];
    assert(up.drop_last() =~= named);
    assert(normal_parts(named).drop_last() =~= normal_parts(a));
    lemma_normal_depends(up, a, b);
    assert(a.push(Part::RootDir).drop_last() =~= a);
    let top = seq![Part::RootDir, Part::<T>::ParentDir];
    assert(top.drop_last() =~= seq![Part::<T>::RootDir]);
    let root = seq![Part::<T>::RootDir];
    assert(root.drop_last() =~= Seq::empty());
    assert(normal_parts(root.drop_last()) =~= Seq::empty());
    assert(normal_parts(root) =~= root);
}

/// One path begins with another if it is that one with further parts behind it, and only then.
pub proof fn path_begins_with_root<T>(path: Seq<Part<T>>, root: Seq<Part<T>>, more: Seq<Part<T>>)
    ensures
        starts_with(root + more, root),
        starts_with(path, root) ==> path == root + path.skip(root.len() as int),
        path.len() < root.len() ==> !starts_with(path, root),
{
    assert((root + more).take(root.len() as int) =~= root);
    if starts_with(path, root) {
        assert(path =~= path.take(root.len() as int) + path.skip(root.len() as int));
    }
}

/// A slug keeps letters, digits, dots, underscores and dashes of ASCII; a run of anything else
/// becomes one dash.
pub proof fn runs_become_dashes(a: Seq<char>, run: Seq<char>, b: Seq<char>, c: char)
    requires
        a.len() == 0 || slug_keeps(a.last()),
        b.len() == 0 || slug_keeps(b[0]),
        run.len() > 0,
        forall|i: int| 0 <= i < run.len() ==> !slug_keeps(#[trigger] run[i]),
    ensures
        dashed(a + run + b).0 == dashed(a).0 + seq!['-'] + dashed(b).0,
        slug_keeps(c) <==> 97 <= c as u32 <= 122 || 65 <= c as u32 <= 90 || 48 <= c as u32 <= 57
            || c == '.' || c == '_' || c == '-',
{
    lemma_run_dashed(a, run);
    lemma_dashed_on(a + run, b);
    assert(dashed(a + run).0 =~= dashed(a).0 + seq!['-']);
}

proof fn lemma_run_dashed(a: Seq<char>, run: Seq<char>)
    requires
        a.len() == 0 || slug_keeps(a.last()),
        run.len() > 0,
        forall|i: int| 0 <= i < run.len() ==> !slug_keeps(#[trigger] run[i]),
    ensures
        dashed(a + run) == (dashed(a).0.push('-'), true),
    decreases run.len(),
{
    let all = a + run;
    assert(all.drop_last() =~= a + run.drop_last());
    assert(all.last() == run[run.len() - 1]);
    if run.len() == 1 {
        assert(all.drop_last() =~= a);
        assert(!dashed(a).1);
    } else {
        assert forall|i: int| 0 <= i < run.drop_last().len() implies !slug_keeps(
            #[trigger] run.drop_last()[i],
        ) by {
            assert(run.drop_last()[i] == run[i]);
        }
        lemma_run_dashed(a, run.drop_last());
    }
}

proof fn lemma_dashed_on(front: Seq<char>, b: Seq<char>)
    requires
        b.len() == 0 || slug_keeps(b[0]),
    ensures
        dashed(front + b).0 == dashed(front).0 + dashed(b).0,
        b.len() > 0 ==> dashed(front + b).1 == dashed(b).1,
    decreases b.len(),
{
    let all = front + b;
    if b.len() == 0 {
        assert(all =~= front);
        assert(dashed(front).0 + dashed(b).0 =~= dashed(front).0);
    } else {
        assert(all.drop_last() =~= front + b.drop_last());
        assert(all.last() == b.last());
        if b.len() == 1 {
            assert(b.drop_last() =~= Seq::empty());
            assert(all.drop_last() =~= front);
            assert(b.last() == b[0]);
            assert(dashed(b.drop_last()).0 =~= Seq::empty());
            assert(dashed(b).0 =~= seq![b[0]]);
            assert(dashed(all).0 =~= dashed(front).0 + dashed(b).0);
        } else {
            assert(b.drop_last()[0] == b[0]);
            lemma_dashed_on(front, b.drop_last());
            assert(dashed(all).0 =~= dashed(front).0 + dashed(b).0);
        }
    }
}

/// The images of a file with a plain name go to a directory of that name, without the extension.
pub proof fn plain_stem_is_slug(stem_text: Seq<char>, ext: Seq<char>)
    requires
        stem_text.len() > 0,
        forall|i: int| 0 <= i < stem_text.len() ==> slug_keeps(#[trigger] stem_text[i]),
        !CharClass::SlugEdge.has(stem_text[0]),
        !CharClass::SlugEdge.has(stem_text.last()),
        ext.len() > 0,
        !ext.contains('.'),
        !ext.contains('/'),
    ensures
        media_slug(stem_text.push('.') + ext) == stem_text,
        media_slug(Seq::empty()) == "source"@,
{
    let name = stem_text.push('.') + ext;
    assert(!name.contains('/')) by {
        if name.contains('/') {
            let i = name.index_of('/');
            assert(name[i] == '/');
            if i < stem_text.len() {
                assert(slug_keeps(stem_text[i]));
            } else if i > stem_text.len() {
                assert(ext[i - stem_text.len() - 1] == '/');
            }
        }
    }
    assert(name.len() >= 3);
    plain_name_is_file_name(Seq::empty(), name);
    extension_stands_behind_last_dot(stem_text, ext, '.');
    lemma_kept_whole(stem_text);
    text::trim_keeps_plain(stem_text, CharClass::SlugEdge);
    assert(dashed(Seq::<char>::empty()).0 =~= Seq::empty());
    let any = seq!['a'];
    assert(any[0] == 'a' && any.len() == 1);
    assert(any != seq!['.']) by {
        assert(seq!['.'][0] == '.');
    }
    plain_name_is_file_name(Seq::empty(), any);
}

proof fn lemma_kept_whole(s: Seq<char>)
    requires
        forall|i: int| 0 <= i < s.len() ==> slug_keeps(#[trigger] s[i]),
    ensures
        dashed(s) == (s, false),
    decreases s.len(),
{
    if s.len() > 0 {
        assert forall|i: int| 0 <= i < s.drop_last().len() implies slug_keeps(
            #[trigger] s.drop_last()[i],
        ) by {
            assert(s.drop_last()[i] == s[i]);
        }
        lemma_kept_whole(s.drop_last());
        assert(s.drop_last().push(s.last()) =~= s);
        assert(slug_keeps(s[s.len() - 1]));
    } else {
        assert(s =~= Seq::empty());
    }
}

proof fn lemma_last_name<T>(dir: Seq<T>, name: Seq<T>, slash: T, dot: T)
    requires
        !name.contains(slash),
        part_of(name, dot) == Some(Part::Normal(name)),
    ensures
        last_name(path_parts(dir.push(slash) + name, slash, dot)) == Some(name),
{
    let path = dir.push(slash) + name;
    text::split_parts_at_separator(dir, name, slash);
    text::split_keeps_whole(name, slash);
    lemma_parts_concat(text::split(dir, slash), seq![name], dot);
    let one = seq![name];
    assert(one.drop_last() =~= Seq::empty());
    assert(parts_of(one.drop_last(), dot) =~= Seq::empty());
    assert(parts_of(one, dot) =~= seq![Part::Normal(name)]);
    let named = parts_of(text::split(path, slash), dot);
    assert(named.last() == Part::Normal(name));
    assert(path_parts(path, slash, dot).last() == Part::Normal(name));
}

/// A file that the file system hands over goes by the name behind its last separator, by the stem
/// before the last dot of that name, and by the extension behind it.
pub proof fn file_goes_by_name(dir: Seq<u8>, stem_text: Seq<char>, ext: Seq<char>)
    requires
        stem_text.len() > 0,
        ext.len() > 0,
        !stem_text.contains('/'),
        !ext.contains('/'),
        !ext.contains('.'),
    ensures
        ({
            let name = stem_text.push('.') + ext;
            let path = dir.push(0x2f) + encode_utf8(name);
            &&& byte_file_name(path) == Some(name)
            &&& byte_stem(path) == Some(stem_text)
            &&& byte_extension(path) == Some(ext)
        }),
{
    let name = stem_text.push('.') + ext;
    let bytes = encode_utf8(name);
    let a = encode_utf8(stem_text);
    let b = encode_utf8(ext);
    assert(name =~= stem_text + (seq!['.'] + ext));
    text::encoding_goes_on(stem_text, seq!['.'] + ext);
    text::encoding_goes_on(seq!['.'], ext);
    text::ascii_stands_for_itself(ext, '.', 0x2eu8);
    text::ascii_stands_for_itself(name, '/', 0x2fu8);
    assert(bytes =~= a.push(0x2eu8) + b);
    assert(!name.contains('/')) by {
        if name.contains('/') {
            let i = name.index_of('/');
            assert(name[i] == '/');
            if i < stem_text.len() {
                assert(stem_text[i] == '/');
            } else if i > stem_text.len() {
                assert(ext[i - stem_text.len() - 1] == '/');
            }
        }
    }
    lemma_encoded_filled(stem_text);
    lemma_encoded_filled(ext);
    assert(bytes.len() >= 3);
    assert(part_of(bytes, 0x2eu8) == Some(Part::Normal(bytes)));
    lemma_last_name(dir, bytes, 0x2fu8, 0x2eu8);
    extension_stands_behind_last_dot(a, b, 0x2eu8);
    encode_utf8_valid_utf8(name);
    encode_utf8_decode_utf8(name);
    encode_utf8_valid_utf8(stem_text);
    encode_utf8_decode_utf8(stem_text);
    encode_utf8_valid_utf8(ext);
    encode_utf8_decode_utf8(ext);
}

proof fn lemma_encoded_filled(s: Seq<char>)
    ensures
        s.len() > 0 <==> encode_utf8(s).len() > 0,
{
    let none = Seq::<char>::empty();
    encode_utf8_decode_utf8(s);
    encode_utf8_decode_utf8(none);
    if s.len() > 0 && encode_utf8(s).len() == 0 {
        assert(encode_utf8(s) =~= encode_utf8(none));
    }
    if s.len() == 0 {
        assert(s =~= none);
    }
}

/// A file below the project is shown by the names that lead to it from the project's directory.
pub proof fn names_below_project_are_shown(project_path: Seq<char>, names: Seq<Seq<char>>)
    requires
        project_path.len() > 0,
        parts(project_path).len() > 0,
        names.len() > 0,
        forall|i: int|
            0 <= i < names.len() ==> (#[trigger] names[i]).len() > 0 && names[i] != seq!['.']
                && !names[i].contains('/') && !names[i].contains('\\'),
    ensures
        shown_path(
            project_path,
            encode_utf8(project_path + seq!['/'] + text::join(names, '/')),
        ) == text::join(names, '/'),
{
    let rest = text::join(names, '/');
    text::split_undoes_join(names, '/');
    text::pieces_are_encoded(rest, '/', 0x2fu8);
    text::encoding_goes_on(project_path + seq!['/'], rest);
    text::encoding_goes_on(project_path, seq!['/']);
    text::ascii_stands_for_itself(rest, '/', 0x2fu8);
    let whole = encode_utf8(project_path + seq!['/'] + rest);
    assert(whole =~= encode_utf8(project_path).push(0x2f) + encode_utf8(rest));
    let last = names.len() - 1;
    let pieces = text::split(encode_utf8(rest), 0x2fu8);
    assert(pieces[0] == encode_utf8(names[0]));
    assert(pieces.last() == encode_utf8(names[last]));
    pieces_are_parts(names[0]);
    pieces_are_parts(names[last]);
    lemma_encoded_part(names[0]);
    lemma_encoded_part(names[last]);
    lemma_parts_encoded(project_path);
    path_below_project_is_shown(project_path, rest);
    lemma_joined_plain(names);
    text::replace_is_exact(rest, '\\', '/');
}

proof fn lemma_joined_plain(names: Seq<Seq<char>>)
    requires
        forall|i: int| 0 <= i < names.len() ==> !(#[trigger] names[i]).contains('\\'),
    ensures
        !text::join(names, '/').contains('\\'),
    decreases names.len(),
{
    let all = text::join(names, '/');
    if names.len() == 1 {
        assert(!names[0].contains('\\'));
    } else if names.len() > 1 {
        let front = names.drop_last();
        assert forall|i: int| 0 <= i < front.len() implies !(#[trigger] front[i]).contains('\\') by {
            assert(front[i] == names[i]);
        }
        lemma_joined_plain(front);
        assert(!names[names.len() - 1].contains('\\'));
        if all.contains('\\') {
            let i = all.index_of('\\');
            let f = text::join(front, '/');
            if i < f.len() {
                assert(f[i] == '\\');
            } else if i > f.len() {
                assert(names.last()[i - f.len() - 1] == '\\');
            }
        }
    }
}

proof fn lemma_encoded_part(piece: Seq<char>)
    ensures
        part_of(encode_utf8(piece), 0x2eu8) is Some <==> part_of(piece, '.') is Some,
{
    text::ascii_stands_for_itself(piece, '.', 0x2eu8);
    lemma_encoded_filled(piece);
    encode_utf8_decode_utf8(piece);
    encode_utf8_decode_utf8(seq!['.']);
    if piece.len() == 1 && piece[0] == '.' {
        assert(piece =~= seq!['.']);
    }
    if encode_utf8(piece).len() == 1 && encode_utf8(piece)[0] == 0x2eu8 {
        assert(encode_utf8(piece) =~= encode_utf8(seq!['.']));
    }
}

proof fn lemma_some_part<T>(pieces: Seq<Seq<T>>, dot: T)
    ensures
        parts_of(pieces, dot).len() > 0 <==> exists|i: int|
            0 <= i < pieces.len() && part_of(#[trigger] pieces[i], dot) is Some,
    decreases pieces.len(),
{
    if pieces.len() > 0 {
        let front = pieces.drop_last();
        lemma_some_part(front, dot);
        let last = pieces.len() - 1;
        assert(pieces[last] == pieces.last());
        if exists|i: int| 0 <= i < front.len() && part_of(#[trigger] front[i], dot) is Some {
            let i = choose|i: int|
                0 <= i < front.len() && part_of(#[trigger] front[i], dot) is Some;
            assert(pieces[i] == front[i]);
        }
        if exists|i: int| 0 <= i < pieces.len() && part_of(#[trigger] pieces[i], dot) is Some {
            let i = choose|i: int|
                0 <= i < pieces.len() && part_of(#[trigger] pieces[i], dot) is Some;
            if i < last {
                assert(front[i] == pieces[i]);
            }
        }
    }
}

proof fn lemma_parts_encoded(path: Seq<char>)
    requires
        parts(path).len() > 0,
        path.len() > 0,
    ensures
        byte_parts(encode_utf8(path)).len() > 0,
{
    let bytes = encode_utf8(path);
    let pieces = text::split(path, '/');
    text::pieces_are_encoded(path, '/', 0x2fu8);
    let coded = text::split(bytes, 0x2fu8);
    lemma_some_part(pieces, '.');
    lemma_some_part(coded, 0x2eu8);
    if exists|i: int| 0 <= i < pieces.len() && part_of(#[trigger] pieces[i], '.') is Some {
        let i = choose|i: int| 0 <= i < pieces.len() && part_of(#[trigger] pieces[i], '.') is Some;
        assert(coded[i] == encode_utf8(pieces[i]));
        lemma_encoded_part(pieces[i]);
    } else {
        let one = seq![path[0]];
        let rest = path.drop_first();
        assert(path =~= one + rest);
        text::encoding_goes_on(one, rest);
        text::ascii_stands_for_itself(one, '/', 0x2fu8);
        text::ascii_stands_for_itself(one, '.', 0x2eu8);
        if path[0] == '/' {
            assert(one =~= seq!['/']);
            assert(bytes[0] == 0x2f);
        } else {
            assert(path[0] == '.');
            assert(one =~= seq!['.']);
            assert(bytes[0] == 0x2e);
            if path.len() == 1 {
                assert(rest =~= Seq::empty());
                assert(bytes.len() == 1);
            } else {
                let two = seq![path[1]];
                assert(rest =~= two + rest.drop_first());
                text::encoding_goes_on(two, rest.drop_first());
                text::ascii_stands_for_itself(two, '/', 0x2fu8);
                assert(two =~= seq!['/']);
                assert(bytes[1] == 0x2f);
            }
        }
    }
}

/// On Windows the name of a file stands behind the last separator of either kind, and never holds a
/// drive; what is stored under a name with a drive, or at the root of one, does not lie below the
/// directory.
pub proof fn windows_names_are_read(
    drive: char,
    dir: Seq<char>,
    sep: char,
    name: Seq<char>,
    base: Seq<char>,
)
    requires
        'a' <= drive <= 'z' || 'A' <= drive <= 'Z',
        sep == '/' || sep == '\\',
        name.len() > 0,
        !name.contains('/'),
        !name.contains('\\'),
        name != seq!['.'],
        name != seq!['.', '.'],
    ensures
        named_file(Platform::Windows, seq![drive, ':'] + dir + seq![sep] + name) == Some(name),
        named_file(Platform::Windows, seq![drive, ':'] + name) == Some(name),
        named_file(Platform::Other, dir + seq!['/'] + name) == Some(name),
        join_named(Platform::Windows, base, seq![drive, ':'] + dir) == text::replace(
            seq![drive, ':'] + dir,
            '\\',
            '/',
        ),
        join_named(Platform::Other, base, seq![drive, ':'] + dir) == join(
            base,
            seq![drive, ':'] + dir,
        ),
        join_named(Platform::Windows, seq![drive, ':'] + base, seq![sep] + name) == seq![
            drive,
            ':',
            '/',
        ] + name,
{
    let w = Platform::Windows;
    let path = seq![drive, ':'] + dir + seq![sep] + name;
    let p = slashed(w, path);
    text::replace_is_exact(name, '\\', '/');
    let d = text::replace(dir, '\\', '/');
    assert(p =~= seq![drive, ':'] + d + seq!['/'] + name);
    assert(p[0] == drive && p[1] == ':');
    assert(p.skip(2) =~= d + seq!['/'] + name);
    plain_name_is_file_name(d, name);
    plain_name_is_file_name(dir, name);
    let short = seq![drive, ':'] + name;
    let q = slashed(w, short);
    assert(q =~= short);
    assert(q[0] == drive && q[1] == ':');
    assert(q.skip(2) =~= name);
    let other = dir + seq!['/'] + name;
    assert(other.skip(0) =~= other);
    let full = seq![drive, ':'] + dir;
    assert(slashed(w, full)[0] == drive && slashed(w, full)[1] == ':');
    let top = seq![sep] + name;
    let t = slashed(w, top);
    assert(t =~= seq!['/'] + name);
    assert(name.contains(name[0]));
    assert(t[1] == name[0]);
    let b = seq![drive, ':'] + base;
    assert(slashed(w, b)[0] == drive && slashed(w, b)[1] == ':');
    assert(b.take(2) =~= seq![drive, ':']);
    assert(seq![drive, ':'] + t =~= seq![drive, ':', '/'] + name);
}

/// The parts and pieces of a list of bytes are its own, one by one.
pub proof fn part_lists_are_kept(list: Seq<PathPart>, pieces: Seq<Vec<u8>>, i: int, name: Vec<u8>)
    ensures
        part_views(list).len() == list.len(),
        0 <= i < list.len() ==> part_views(list)[i] == list[i]@,
        byte_views(pieces).len() == pieces.len(),
        0 <= i < pieces.len() ==> byte_views(pieces)[i] == pieces[i]@,
        PathPart::RootDir@ == Part::<u8>::RootDir,
        PathPart::CurDir@ == Part::<u8>::CurDir,
        PathPart::ParentDir@ == Part::<u8>::ParentDir,
        PathPart::Normal(name)@ == Part::Normal(name@),
{
}

} // verus!

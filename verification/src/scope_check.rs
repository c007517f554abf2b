//! The check of an allowlist against the file system, one question to it at a time.
//!
//! Every component of an allowed path, from the project's real directory down, has to be a real
//! directory and the last one a regular file; a symbolic link anywhere refuses the request. A
//! path that no longer exists is left out.
use crate::order;
use crate::order::TextSet;
use crate::paths;
use crate::scope;
use crate::text;
use vstd::prelude::*;
use vstd::string::*;
use vstd::utf8::*;

verus! {

/// What a path names, without following a symbolic link.
#[derive(Clone, Copy, Debug, PartialEq, Eq, Structural)]
pub enum FileKind {
    Symlink,
    Directory,
    File,
    Other,
}

/// What the file system says of a path.
#[derive(Clone, Copy, Debug, PartialEq, Eq, Structural)]
pub enum Metadata {
    Found(FileKind),
    /// There is nothing at the path.
    NotFound,
    /// The file system could not tell.
    Unavailable,
}

/// A project directory and the paths in it that a search may read; all of them where there is no
/// allowlist.
pub struct ValidatedSourceFileScope {
    pub project_root: String,
    pub allowed_paths: Option<TextSet>,
}

/// The mathematical value of a scope.
pub ghost struct ScopeModel {
    pub project_root: Seq<char>,
    pub allowed: Option<Set<Seq<char>>>,
}

impl View for ValidatedSourceFileScope {
    type V = ScopeModel;

    open spec fn view(&self) -> ScopeModel {
        ScopeModel {
            project_root: self.project_root@,
            allowed: scope::optional_set(self.allowed_paths),
        }
    }
}

/// The path `rest` below `base`.
pub open spec fn byte_join(base: Seq<u8>, rest: Seq<u8>) -> Seq<u8> {
    if base.len() == 0 || base.last() == 0x2f {
        base + rest
    } else {
        base.push(0x2f) + rest
    }
}

/// The path of some pieces below `base`.
pub open spec fn descend(base: Seq<u8>, pieces: Seq<Seq<char>>) -> Seq<u8>
    decreases pieces.len(),
{
    if pieces.len() == 0 {
        base
    } else {
        byte_join(descend(base, pieces.drop_last()), encode_utf8(pieces.last()))
    }
}

/// The check of one path: the real directory of the project, the paths after this one, the
/// pieces of this one, the piece that is looked at, and the paths that were found good.
pub ghost struct PathModel {
    pub root: Seq<u8>,
    pub rest: Seq<Seq<char>>,
    pub pieces: Seq<Seq<char>>,
    pub index: int,
    pub found: Set<Seq<char>>,
}

impl PathModel {
    /// The path that the file system is asked about.
    pub open spec fn candidate(self) -> Seq<u8> {
        descend(self.root, self.pieces.take(self.index + 1))
    }

    /// Whether the piece that is looked at is the last.
    pub open spec fn at_last(self) -> bool {
        self.index + 1 >= self.pieces.len()
    }
}

/// The states of the check.
pub ghost enum CheckModel {
    /// What is the project's directory?
    RootMetadata { root: Seq<char>, paths: Seq<Seq<char>> },
    /// What is its real path?
    RootCanonical { root: Seq<char>, paths: Seq<Seq<char>> },
    /// What is the component?
    Component(PathModel),
    /// What is the real path of the file?
    Target(PathModel),
    Done(Result<ScopeModel, Seq<char>>),
}

/// The check goes on with the next path, or ends.
pub open spec fn next_path(
    root: Seq<u8>,
    paths: Seq<Seq<char>>,
    found: Set<Seq<char>>,
) -> CheckModel {
    if paths.len() > 0 {
        CheckModel::Component(
            PathModel {
                root,
                rest: paths.drop_first(),
                pieces: text::split(paths[0], '/'),
                index: 0,
                found,
            },
        )
    } else if valid_utf8(root) {
        CheckModel::Done(Ok(ScopeModel { project_root: decode_utf8(root), allowed: Some(found) }))
    } else {
        CheckModel::Done(Err("canonical project root must be valid UTF-8"@))
    }
}

/// The check begins; without an allowlist there is nothing to check.
pub open spec fn begin(root: Seq<char>, allowed: Option<Seq<Seq<char>>>) -> CheckModel {
    match allowed {
        None => CheckModel::Done(Ok(ScopeModel { project_root: root, allowed: None })),
        Some(paths) => CheckModel::RootMetadata { root, paths },
    }
}

/// What the answer about the project's directory leads to.
pub open spec fn after_root_metadata(
    root: Seq<char>,
    paths: Seq<Seq<char>>,
    answer: Metadata,
) -> CheckModel {
    match answer {
        Metadata::Found(FileKind::Directory) => CheckModel::RootCanonical { root, paths },
        Metadata::Found(_) => CheckModel::Done(
            Err("project root must be a real directory for explicit source scope"@),
        ),
        _ => CheckModel::Done(Err("project root is unavailable for source scope validation"@)),
    }
}

/// What the answer about the real path of the project's directory leads to.
pub open spec fn after_root_canonical(
    paths: Seq<Seq<char>>,
    answer: Option<Seq<u8>>,
) -> CheckModel {
    match answer {
        Some(root) => next_path(root, paths, Set::empty()),
        None => CheckModel::Done(
            Err("project root cannot be canonicalized for source scope validation"@),
        ),
    }
}

/// What the answer about a component leads to.
pub open spec fn after_component(m: PathModel, answer: Metadata) -> CheckModel {
    match answer {
        Metadata::NotFound => next_path(m.root, m.rest, m.found),
        Metadata::Unavailable => CheckModel::Done(
            Err("allowed source path metadata is unavailable"@),
        ),
        Metadata::Found(FileKind::Symlink) => CheckModel::Done(
            Err("allowed source path must not contain symlinks"@),
        ),
        Metadata::Found(kind) => if m.at_last() {
            if kind == FileKind::File {
                CheckModel::Target(m)
            } else {
                CheckModel::Done(Err("allowed source path must reference a regular file"@))
            }
        } else if kind == FileKind::Directory {
            CheckModel::Component(PathModel { index: m.index + 1, ..m })
        } else {
            CheckModel::Done(Err("allowed source path parent must be a real directory"@))
        },
    }
}

/// The path of the allowlist that a real path stands for, or why it is refused.
pub open spec fn real_source_path(root: Seq<u8>, target: Option<Seq<u8>>) -> Result<
    Seq<char>,
    Seq<char>,
> {
    match target {
        None => Err("allowed source path cannot be canonicalized"@),
        Some(target) => match paths::below_root(target, root) {
            None => Err("allowed source path must remain inside the project root"@),
            Some(relative) => if valid_utf8(relative) {
                scope::source_path(text::replace(decode_utf8(relative), '\\', '/'))
            } else {
                Err("allowed source path must be valid UTF-8"@)
            },
        },
    }
}

/// What the answer about the real path of a file leads to.
pub open spec fn after_target(m: PathModel, answer: Option<Seq<u8>>) -> CheckModel {
    match real_source_path(m.root, answer) {
        Ok(path) => next_path(m.root, m.rest, m.found.insert(path)),
        Err(reason) => CheckModel::Done(Err(reason)),
    }
}

/// The check of the project's directory.
pub struct RootCheck {
    root: String,
    paths: Vec<String>,
}

/// The check of one path.
pub struct PathCheck {
    root: Vec<u8>,
    paths: Vec<String>,
    next: usize,
    pieces: Vec<String>,
    index: usize,
    candidate: Vec<u8>,
    found: TextSet,
}

/// The step that the check is at.
pub enum ScopeStep {
    RootMetadata(RootCheck),
    RootCanonical(RootCheck),
    Component(PathCheck),
    Target(PathCheck),
    Done(Result<ValidatedSourceFileScope, &'static str>),
}

impl View for PathCheck {
    type V = PathModel;

    closed spec fn view(&self) -> PathModel {
        PathModel {
            root: self.root@,
            rest: text::views(self.paths@).skip(self.next as int),
            pieces: text::views(self.pieces@),
            index: self.index as int,
            found: self.found@,
        }
    }
}

impl View for ScopeStep {
    type V = CheckModel;

    open spec fn view(&self) -> CheckModel {
        match self {
            ScopeStep::RootMetadata(check) => CheckModel::RootMetadata {
                root: check.root_text(),
                paths: check.path_texts(),
            },
            ScopeStep::RootCanonical(check) => CheckModel::RootCanonical {
                root: check.root_text(),
                paths: check.path_texts(),
            },
            ScopeStep::Component(check) => CheckModel::Component(check@),
            ScopeStep::Target(check) => CheckModel::Target(check@),
            ScopeStep::Done(Ok(done)) => CheckModel::Done(Ok(done@)),
            ScopeStep::Done(Err(reason)) => CheckModel::Done(Err(reason@)),
        }
    }
}

/// Puts a piece below a path.
fn push_piece(path: &mut Vec<u8>, piece: &str)
    ensures
        final(path)@ == byte_join(old(path)@, encode_utf8(piece@)),
{
    let len: usize = path.len();
    if len > 0 && path[len - 1] != 0x2f {
        path.push(0x2f);
    }
    let bytes = piece.as_bytes();
    let ghost head = path@;
    let mut k: usize = 0;
    while k < bytes.len()
        invariant
            k <= bytes@.len(),
            path@ == head + bytes@.take(k as int),
        decreases bytes@.len() - k,
    {
        path.push(bytes[k]);
        assert(path@ =~= head + bytes@.take(k + 1));
        k = k + 1;
    }
    assert(bytes@.take(k as int) =~= bytes@);
}

/// Goes on with the path at `next`, or ends the check.
fn go_on(root: Vec<u8>, paths: Vec<String>, next: usize, found: TextSet) -> (r: ScopeStep)
    requires
        next <= paths@.len(),
    ensures
        r@ == next_path(root@, text::views(paths@).skip(next as int), found@),
{
    let ghost left = text::views(paths@).skip(next as int);
    if next < paths.len() {
        let pieces = text::split_text(paths[next].as_str(), '/');
        proof {
            assert(left[0] == paths@[next as int]@);
            assert(left.drop_first() =~= text::views(paths@).skip(next + 1));
            text::lemma_split_len(left[0], '/');
            assert(text::views(pieces@).len() == pieces@.len());
        }
        let mut candidate = vstd::slice::slice_to_vec(&root);
        push_piece(&mut candidate, pieces[0].as_str());
        proof {
            let first = text::views(pieces@).take(1);
            assert(first.drop_last() =~= Seq::empty());
            assert(first.last() == pieces@[0]@);
            assert(descend(root@, first.drop_last()) == root@);
        }
        return ScopeStep::Component(
            PathCheck { root, paths, next: next + 1, pieces, index: 0, candidate, found },
        );
    }
    match text::utf8_text(&root) {
        Some(project_root) => ScopeStep::Done(
            Ok(ValidatedSourceFileScope { project_root, allowed_paths: Some(found) }),
        ),
        None => ScopeStep::Done(Err("canonical project root must be valid UTF-8")),
    }
}

/// Begins the check of an allowlist below a project directory.
pub fn validate_allowed_source_files(project_root: &str, allowed: Option<TextSet>) -> (r: ScopeStep)
    ensures
        r@ == begin(
            project_root@,
            match allowed {
                Some(allowed) => Some(order::sorted(allowed@)),
                None => None,
            },
        ),
{
    match allowed {
        None => ScopeStep::Done(
            Ok(
                ValidatedSourceFileScope {
                    project_root: project_root.to_owned(),
                    allowed_paths: None,
                },
            ),
        ),
        Some(allowed) => {
            let items = allowed.items();
            let mut paths: Vec<String> = Vec::new();
            let mut i: usize = 0;
            while i < items.len()
                invariant
                    i <= items@.len(),
                    text::views(items@) == allowed.texts(),
                    text::views(paths@) == allowed.texts().take(i as int),
                decreases items@.len() - i,
            {
                let ghost before = paths@;
                assert(allowed.texts()[i as int] == items@[i as int]@);
                paths.push(items[i].clone());
                assert(text::views(paths@) =~= text::views(before).push(items@[i as int]@));
                assert(text::views(paths@) =~= allowed.texts().take(i + 1));
                i = i + 1;
            }
            assert(allowed.texts().take(i as int) =~= allowed.texts());
            ScopeStep::RootMetadata(RootCheck { root: project_root.to_owned(), paths })
        },
    }
}

impl RootCheck {
    /// The project's directory.
    pub closed spec fn root_text(&self) -> Seq<char> {
        self.root@
    }

    /// The paths to check.
    pub closed spec fn path_texts(&self) -> Seq<Seq<char>> {
        text::views(self.paths@)
    }

    /// The path that the file system is asked about.
    pub fn path(&self) -> (r: &str)
        ensures
            r@ == self.root_text(),
    {
        self.root.as_str()
    }

    /// Takes the answer about the project's directory.
    pub fn metadata(self, answer: Metadata) -> (r: ScopeStep)
        ensures
            r@ == after_root_metadata(self.root_text(), self.path_texts(), answer),
    {
        match answer {
            Metadata::Found(FileKind::Directory) => ScopeStep::RootCanonical(self),
            Metadata::Found(_) => ScopeStep::Done(
                Err("project root must be a real directory for explicit source scope"),
            ),
            _ => ScopeStep::Done(Err("project root is unavailable for source scope validation")),
        }
    }

    /// Takes the answer about the real path of the project's directory.
    pub fn canonical(self, answer: Option<Vec<u8>>) -> (r: ScopeStep)
        ensures
            r@ == after_root_canonical(
                self.path_texts(),
                match answer {
                    Some(bytes) => Some(bytes@),
                    None => None,
                },
            ),
    {
        match answer {
            Some(root) => {
                assert(text::views(self.paths@).skip(0) =~= text::views(self.paths@));
                go_on(root, self.paths, 0, TextSet::new())
            },
            None => ScopeStep::Done(
                Err("project root cannot be canonicalized for source scope validation"),
            ),
        }
    }
}

impl PathCheck {
    #[verifier::type_invariant]
    closed spec fn in_step(&self) -> bool {
        &&& self.next <= self.paths@.len()
        &&& self.index < self.pieces@.len()
        &&& self.candidate@ == descend(
            self.root@,
            text::views(self.pieces@).take(self.index + 1),
        )
    }

    /// The path that the file system is asked about.
    pub fn path(&self) -> (r: &Vec<u8>)
        ensures
            r@ == self@.candidate(),
    {
        proof {
            use_type_invariant(self);
        }
        &self.candidate
    }

    /// Takes the answer about a component.
    pub fn component(self, answer: Metadata) -> (r: ScopeStep)
        ensures
            r@ == after_component(self@, answer),
    {
        proof {
            use_type_invariant(&self);
        }
        match answer {
            Metadata::NotFound => {
                let PathCheck { root, paths, next, pieces: _, index: _, candidate: _, found } =
                    self;
                go_on(root, paths, next, found)
            },
            Metadata::Unavailable => ScopeStep::Done(
                Err("allowed source path metadata is unavailable"),
            ),
            Metadata::Found(FileKind::Symlink) => ScopeStep::Done(
                Err("allowed source path must not contain symlinks"),
            ),
            Metadata::Found(kind) => {
                if self.index == self.pieces.len() - 1 {
                    if kind == FileKind::File {
                        ScopeStep::Target(self)
                    } else {
                        ScopeStep::Done(Err("allowed source path must reference a regular file"))
                    }
                } else if kind == FileKind::Directory {
                    let PathCheck { root, paths, next, pieces, index, candidate, found } = self;
                    let mut candidate = candidate;
                    push_piece(&mut candidate, pieces[index + 1].as_str());
                    proof {
                        let all = text::views(pieces@);
                        assert(all.take(index + 2).drop_last() =~= all.take(index + 1));
                        assert(all.take(index + 2).last() == pieces@[index + 1]@);
                    }
                    ScopeStep::Component(
                        PathCheck { root, paths, next, pieces, index: index + 1, candidate, found },
                    )
                } else {
                    ScopeStep::Done(Err("allowed source path parent must be a real directory"))
                }
            },
        }
    }

    /// Takes the answer about the real path of the file.
    pub fn target(self, answer: Option<Vec<u8>>) -> (r: ScopeStep)
        ensures
            r@ == after_target(
                self@,
                match answer {
                    Some(bytes) => Some(bytes@),
                    None => None,
                },
            ),
    {
        proof {
            use_type_invariant(&self);
        }
        let target = match answer {
            Some(target) => target,
            None => {
                return ScopeStep::Done(Err("allowed source path cannot be canonicalized"));
            },
        };
        let PathCheck { root, paths, next, pieces: _, index: _, candidate: _, found } = self;
        let relative = match paths::strip_root(&target, &root) {
            Some(relative) => relative,
            None => {
                return ScopeStep::Done(
                    Err("allowed source path must remain inside the project root"),
                );
            },
        };
        let relative = match text::utf8_text(&relative) {
            Some(relative) => relative,
            None => {
                return ScopeStep::Done(Err("allowed source path must be valid UTF-8"));
            },
        };
        let relative = text::replaced(relative.as_str(), '\\', '/');
        match scope::normalize_project_relative_source_path(relative.as_str()) {
            Ok(path) => go_on(root, paths, next, found.with(path)),
            Err(reason) => ScopeStep::Done(Err(reason)),
        }
    }
}

/// A file system: what it says of each path, and the real path of each.
pub ghost struct FileSystem {
    pub metadata: spec_fn(Seq<u8>) -> Metadata,
    pub canonical: spec_fn(Seq<u8>) -> Option<Seq<u8>>,
}

/// The step that follows when the file system answers.
pub open spec fn answered(fs: FileSystem, m: CheckModel) -> CheckModel {
    match m {
        CheckModel::RootMetadata { root, paths } => after_root_metadata(
            root,
            paths,
            (fs.metadata)(encode_utf8(root)),
        ),
        CheckModel::RootCanonical { root, paths } => after_root_canonical(
            paths,
            (fs.canonical)(encode_utf8(root)),
        ),
        CheckModel::Component(m) => after_component(m, (fs.metadata)(m.candidate())),
        CheckModel::Target(m) => after_target(m, (fs.canonical)(m.candidate())),
        CheckModel::Done(_) => m,
    }
}

/// The kinds of steps, counted down.
pub open spec fn stage(m: CheckModel) -> nat {
    match m {
        CheckModel::RootMetadata { .. } => 3,
        CheckModel::RootCanonical { .. } => 2,
        CheckModel::Component(_) => 1,
        CheckModel::Target(_) => 1,
        CheckModel::Done(_) => 0,
    }
}

/// How many paths are left to check.
pub open spec fn paths_left(m: CheckModel) -> nat {
    match m {
        CheckModel::Component(m) => m.rest.len() + 1,
        CheckModel::Target(m) => m.rest.len() + 1,
        _ => 0,
    }
}

/// How many questions about this path are left.
pub open spec fn questions_left(m: CheckModel) -> nat {
    match m {
        CheckModel::Component(m) => if m.at_last() {
            1
        } else {
            (m.pieces.len() - m.index) as nat
        },
        _ => 0,
    }
}

/// What the check comes to when it is run against a file system.
pub open spec fn outcome(fs: FileSystem, m: CheckModel) -> Result<ScopeModel, Seq<char>>
    decreases stage(m), paths_left(m), questions_left(m),
{
    match m {
        CheckModel::Done(done) => done,
        _ => outcome(fs, answered(fs, m)),
    }
}

/// What the pieces of a path come to from one piece on: nothing where one is missing, a refusal,
/// or the path.
pub open spec fn walked(fs: FileSystem, root: Seq<u8>, pieces: Seq<Seq<char>>, index: int) -> Result<
    Option<Seq<char>>,
    Seq<char>,
>
    decreases pieces.len() - index,
{
    let here = descend(root, pieces.take(index + 1));
    match (fs.metadata)(here) {
        Metadata::NotFound => Ok(None),
        Metadata::Unavailable => Err("allowed source path metadata is unavailable"@),
        Metadata::Found(FileKind::Symlink) => Err("allowed source path must not contain symlinks"@),
        Metadata::Found(kind) => if index + 1 >= pieces.len() {
            if kind == FileKind::File {
                match real_source_path(root, (fs.canonical)(here)) {
                    Ok(path) => Ok(Some(path)),
                    Err(reason) => Err(reason),
                }
            } else {
                Err("allowed source path must reference a regular file"@)
            }
        } else if kind == FileKind::Directory {
            walked(fs, root, pieces, index + 1)
        } else {
            Err("allowed source path parent must be a real directory"@)
        },
    }
}

/// The paths that are found good, or the first refusal.
pub open spec fn found_good(fs: FileSystem, root: Seq<u8>, paths: Seq<Seq<char>>) -> Result<
    Set<Seq<char>>,
    Seq<char>,
>
    decreases paths.len(),
{
    if paths.len() == 0 {
        Ok(Set::empty())
    } else {
        match walked(fs, root, text::split(paths[0], '/'), 0) {
            Err(reason) => Err(reason),
            Ok(path) => match found_good(fs, root, paths.drop_first()) {
                Err(reason) => Err(reason),
                Ok(rest) => match path {
                    Some(path) => Ok(rest.insert(path)),
                    None => Ok(rest),
                },
            },
        }
    }
}

/// What an allowlist comes to against a file system.
pub open spec fn validated(fs: FileSystem, root: Seq<char>, allowed: Option<Seq<Seq<char>>>) -> Result<
    ScopeModel,
    Seq<char>,
> {
    match allowed {
        None => Ok(ScopeModel { project_root: root, allowed: None }),
        Some(paths) => match ((fs.metadata)(encode_utf8(root)), (fs.canonical)(encode_utf8(root))) {
            (Metadata::Found(FileKind::Directory), Some(place)) => match found_good(
                fs,
                place,
                paths,
            ) {
                Err(reason) => Err(reason),
                Ok(found) => if valid_utf8(place) {
                    Ok(ScopeModel { project_root: decode_utf8(place), allowed: Some(found) })
                } else {
                    Err("canonical project root must be valid UTF-8"@)
                },
            },
            (Metadata::Found(FileKind::Directory), None) => Err(
                "project root cannot be canonicalized for source scope validation"@,
            ),
            (Metadata::Found(_), _) => Err(
                "project root must be a real directory for explicit source scope"@,
            ),
            _ => Err("project root is unavailable for source scope validation"@),
        },
    }
}

/// What the rest of the check comes to, with what was found before.
spec fn rest_outcome(
    fs: FileSystem,
    root: Seq<u8>,
    paths: Seq<Seq<char>>,
    found: Set<Seq<char>>,
) -> Result<ScopeModel, Seq<char>> {
    match found_good(fs, root, paths) {
        Err(reason) => Err(reason),
        Ok(more) => if valid_utf8(root) {
            Ok(ScopeModel { project_root: decode_utf8(root), allowed: Some(found.union(more)) })
        } else {
            Err("canonical project root must be valid UTF-8"@)
        },
    }
}

proof fn lemma_path_outcome(fs: FileSystem, m: PathModel)
    requires
        0 <= m.index,
    ensures
        outcome(fs, CheckModel::Component(m)) == (match walked(fs, m.root, m.pieces, m.index) {
            Err(reason) => Err(reason),
            Ok(Some(path)) => rest_outcome(fs, m.root, m.rest, m.found.insert(path)),
            Ok(None) => rest_outcome(fs, m.root, m.rest, m.found),
        }),
    decreases m.rest.len(), 1int, m.pieces.len() - m.index,
{
    let state = CheckModel::Component(m);
    let answer = (fs.metadata)(m.candidate());
    let next = after_component(m, answer);
    assert(outcome(fs, state) == outcome(fs, next));
    match answer {
        Metadata::NotFound => {
            lemma_rest_outcome(fs, m.root, m.rest, m.found);
        },
        Metadata::Unavailable => {},
        Metadata::Found(FileKind::Symlink) => {},
        Metadata::Found(kind) => {
            if m.at_last() {
                if kind == FileKind::File {
                    let target = (fs.canonical)(m.candidate());
                    assert(outcome(fs, next) == outcome(fs, after_target(m, target)));
                    match real_source_path(m.root, target) {
                        Ok(path) => {
                            lemma_rest_outcome(fs, m.root, m.rest, m.found.insert(path));
                        },
                        Err(_) => {},
                    }
                }
            } else if kind == FileKind::Directory {
                lemma_path_outcome(fs, PathModel { index: m.index + 1, ..m });
            }
        },
    }
}

proof fn lemma_rest_outcome(
    fs: FileSystem,
    root: Seq<u8>,
    paths: Seq<Seq<char>>,
    found: Set<Seq<char>>,
)
    ensures
        outcome(fs, next_path(root, paths, found)) == rest_outcome(fs, root, paths, found),
    decreases paths.len(), 0int, 0int,
{
    if paths.len() > 0 {
        let m = PathModel {
            root,
            rest: paths.drop_first(),
            pieces: text::split(paths[0], '/'),
            index: 0,
            found,
        };
        lemma_path_outcome(fs, m);
        match found_good(fs, root, paths.drop_first()) {
            Ok(more) => {
                match walked(fs, root, m.pieces, 0) {
                    Ok(Some(path)) => {
                        assert(found.insert(path).union(more) =~= found.union(more.insert(path)));
                    },
                    _ => {},
                }
            },
            Err(_) => {},
        }
    } else {
        assert(found.union(Set::empty()) =~= found);
    }
}

/// Run against any file system, the check ends, and comes to what [`validated`] says.
pub proof fn check_is_validation(
    fs: FileSystem,
    root: Seq<char>,
    allowed: Option<Seq<Seq<char>>>,
)
    ensures
        outcome(fs, begin(root, allowed)) == validated(fs, root, allowed),
{
    reveal_with_fuel(outcome, 3);
    match allowed {
        None => {},
        Some(paths) => {
            match (fs.canonical)(encode_utf8(root)) {
                Some(place) => {
                    lemma_rest_outcome(fs, place, paths, Set::empty());
                    match found_good(fs, place, paths) {
                        Ok(more) => {
                            assert(Set::<Seq<char>>::empty().union(more) =~= more);
                        },
                        Err(_) => {},
                    }
                },
                None => {},
            }
        },
    }
}

proof fn lemma_walked_is_real(fs: FileSystem, root: Seq<u8>, pieces: Seq<Seq<char>>, index: int)
    requires
        0 <= index < pieces.len(),
        walked(fs, root, pieces, index) matches Ok(Some(_)),
    ensures
        forall|k: int|
            index <= k < pieces.len() - 1 ==> (fs.metadata)(
                descend(root, #[trigger] pieces.take(k + 1)),
            ) == Metadata::Found(FileKind::Directory),
        (fs.metadata)(descend(root, pieces)) == Metadata::Found(FileKind::File),
        walked(fs, root, pieces, index) == Ok::<Option<Seq<char>>, Seq<char>>(
            Some(real_source_path(root, (fs.canonical)(descend(root, pieces)))->Ok_0),
        ),
        real_source_path(root, (fs.canonical)(descend(root, pieces))) is Ok,
    decreases pieces.len() - index,
{
    if index + 1 < pieces.len() {
        lemma_walked_is_real(fs, root, pieces, index + 1);
    } else {
        assert(pieces.take(index + 1) =~= pieces);
    }
}

/// Whether an allowed path leads, through real directories alone, to a regular file whose real
/// path is `path` below the project's real directory.
pub open spec fn leads_to(fs: FileSystem, root: Seq<u8>, allowed: Seq<char>, path: Seq<char>) -> bool {
    let pieces = text::split(allowed, '/');
    &&& forall|k: int|
        0 <= k < pieces.len() - 1 ==> (fs.metadata)(descend(root, #[trigger] pieces.take(k + 1)))
            == Metadata::Found(FileKind::Directory)
    &&& (fs.metadata)(descend(root, pieces)) == Metadata::Found(FileKind::File)
    &&& real_source_path(root, (fs.canonical)(descend(root, pieces))) == Ok::<
        Seq<char>,
        Seq<char>,
    >(path)
}

/// Every path of a scope that was checked is one that an allowed path leads to through real
/// directories: no symbolic link is in between, and the file is a regular one inside the project.
pub proof fn scope_holds_real_files(
    fs: FileSystem,
    root: Seq<u8>,
    paths: Seq<Seq<char>>,
    path: Seq<char>,
)
    requires
        found_good(fs, root, paths) is Ok,
        found_good(fs, root, paths)->Ok_0.contains(path),
    ensures
        exists|i: int| 0 <= i < paths.len() && leads_to(fs, root, #[trigger] paths[i], path),
    decreases paths.len(),
{
    if paths.len() > 0 {
        let pieces = text::split(paths[0], '/');
        let rest = paths.drop_first();
        text::lemma_split_len(paths[0], '/');
        if found_good(fs, root, rest)->Ok_0.contains(path) {
            scope_holds_real_files(fs, root, rest, path);
            let i = choose|i: int|
                0 <= i < rest.len() && leads_to(fs, root, #[trigger] rest[i], path);
            assert(paths[i + 1] == rest[i]);
        } else {
            lemma_walked_is_real(fs, root, pieces, 0);
            assert(leads_to(fs, root, paths[0], path));
        }
    }
}

/// An allowlist never becomes none: what was checked under an allowlist stays under one, though
/// no path of it may be left.
pub proof fn scope_stays_explicit(fs: FileSystem, root: Seq<char>, paths: Seq<Seq<char>>)
    requires
        validated(fs, root, Some(paths)) is Ok,
    ensures
        validated(fs, root, Some(paths))->Ok_0.allowed is Some,
{
}

/// The path of a piece below a directory is the directory, a separator and the piece; that of
/// several pieces goes down piece by piece.
pub proof fn pieces_go_down(base: Seq<u8>, pieces: Seq<Seq<char>>, piece: Seq<char>)
    ensures
        descend(base, Seq::empty()) == base,
        descend(base, pieces.push(piece)) == byte_join(descend(base, pieces), encode_utf8(piece)),
        base.len() > 0 && base.last() != 0x2f ==> byte_join(base, encode_utf8(piece)) == base
            + seq![0x2fu8] + encode_utf8(piece),
        base.len() == 0 || base.last() == 0x2f ==> byte_join(base, encode_utf8(piece)) == base
            + encode_utf8(piece),
{
    assert(pieces.push(piece).drop_last() =~= pieces);
    assert(base.push(0x2f) + encode_utf8(piece) =~= base + seq![0x2fu8] + encode_utf8(piece));
}

proof fn lemma_walk_down(
    fs: FileSystem,
    root: Seq<u8>,
    pieces: Seq<Seq<char>>,
    index: int,
    k: int,
)
    requires
        0 <= index <= k < pieces.len(),
        forall|j: int|
            index <= j < k ==> (fs.metadata)(descend(root, #[trigger] pieces.take(j + 1)))
                == Metadata::Found(FileKind::Directory),
    ensures
        walked(fs, root, pieces, index) == walked(fs, root, pieces, k),
    decreases k - index,
{
    if index < k {
        assert((fs.metadata)(descend(root, pieces.take(index + 1))) == Metadata::Found(
            FileKind::Directory,
        ));
        lemma_walk_down(fs, root, pieces, index + 1, k);
    }
}

/// Every file that an allowed path leads to is in the scope that was checked; a path of which a
/// component is missing adds nothing, and a symbolic link on the way refuses the request.
pub proof fn allowed_files_are_in_scope(
    fs: FileSystem,
    root: Seq<u8>,
    paths: Seq<Seq<char>>,
    i: int,
    k: int,
    path: Seq<char>,
)
    requires
        0 <= i < paths.len(),
        0 <= k < text::split(paths[i], '/').len(),
        forall|j: int|
            0 <= j < k ==> (fs.metadata)(
                descend(root, #[trigger] text::split(paths[i], '/').take(j + 1)),
            ) == Metadata::Found(FileKind::Directory),
    ensures
        ({
            let pieces = text::split(paths[i], '/');
            let here = (fs.metadata)(descend(root, pieces.take(k + 1)));
            let good = found_good(fs, root, paths);
            &&& here == Metadata::Found(FileKind::Symlink) ==> good is Err
            &&& here == Metadata::Unavailable ==> good is Err
            &&& here == Metadata::NotFound ==> walked(fs, root, pieces, 0) == Ok::<
                Option<Seq<char>>,
                Seq<char>,
            >(None)
            &&& k + 1 < pieces.len() && here == Metadata::Found(FileKind::File) ==> good is Err
            &&& k + 1 == pieces.len() && here == Metadata::Found(FileKind::Directory)
                ==> good is Err
            &&& good is Ok && leads_to(fs, root, paths[i], path) ==> good->Ok_0.contains(path)
        }),
    decreases paths.len(),
{
    let pieces = text::split(paths[i], '/');
    lemma_walk_down(fs, root, pieces, 0, k);
    if leads_to(fs, root, paths[i], path) {
        let last = pieces.len() - 1;
        lemma_walk_down(fs, root, pieces, 0, last);
        assert(pieces.take(last + 1) =~= pieces);
        assert(walked(fs, root, pieces, 0) == Ok::<Option<Seq<char>>, Seq<char>>(Some(path)));
    }
    if i > 0 {
        let rest = paths.drop_first();
        assert(rest[i - 1] == paths[i]);
        allowed_files_are_in_scope(fs, root, rest, i - 1, k, path);
    }
}

/// The real path of an allowed file is taken as it stands below the project's real directory; a
/// real path elsewhere, or none at all, refuses the request.
pub proof fn real_path_is_below_root(root: Seq<u8>, target: Seq<u8>)
    ensures
        paths::below_root(target, root) is None ==> real_source_path(root, Some(target)) == Err::<
            Seq<char>,
            Seq<char>,
        >("allowed source path must remain inside the project root"@),
        real_source_path(root, None) == Err::<Seq<char>, Seq<char>>(
            "allowed source path cannot be canonicalized"@,
        ),
        paths::below_root(target, root) matches Some(rest) ==> (valid_utf8(rest)
            ==> real_source_path(root, Some(target)) == scope::source_path(
            text::replace(decode_utf8(rest), '\\', '/'),
        )),
        paths::below_root(target, root) matches Some(rest) ==> (!valid_utf8(rest)
            ==> real_source_path(root, Some(target)) == Err::<Seq<char>, Seq<char>>(
            "allowed source path must be valid UTF-8"@,
        )),
{
}

/// An allowlist is checked only below a real directory, and its scope has the real path of that
/// directory and the files that were found; without an allowlist there is nothing to check.
pub proof fn scope_is_below_real_directory(
    fs: FileSystem,
    root: Seq<char>,
    paths: Seq<Seq<char>>,
    place: Seq<u8>,
)
    ensures
        validated(fs, root, None) == Ok::<ScopeModel, Seq<char>>(
            ScopeModel { project_root: root, allowed: None },
        ),
        (fs.metadata)(encode_utf8(root)) != Metadata::Found(FileKind::Directory) ==> validated(
            fs,
            root,
            Some(paths),
        ) is Err,
        (fs.canonical)(encode_utf8(root)) is None ==> validated(fs, root, Some(paths)) is Err,
        (fs.metadata)(encode_utf8(root)) == Metadata::Found(FileKind::Directory) && (fs.canonical)(
            encode_utf8(root),
        ) == Some(place) && valid_utf8(place) && found_good(fs, place, paths) is Ok ==> validated(
            fs,
            root,
            Some(paths),
        ) == Ok::<ScopeModel, Seq<char>>(
            ScopeModel {
                project_root: decode_utf8(place),
                allowed: Some(found_good(fs, place, paths)->Ok_0),
            },
        ),
{
}

/// The first path of an allowlist that cannot be allowed refuses the request, and what stands on
/// its way is told.
pub proof fn first_bad_path_is_told(fs: FileSystem, root: Seq<u8>, paths: Seq<Seq<char>>, k: int)
    requires
        paths.len() > 0,
        0 <= k < text::split(paths[0], '/').len(),
        forall|j: int|
            0 <= j < k ==> (fs.metadata)(
                descend(root, #[trigger] text::split(paths[0], '/').take(j + 1)),
            ) == Metadata::Found(FileKind::Directory),
    ensures
        ({
            let pieces = text::split(paths[0], '/');
            let here = (fs.metadata)(descend(root, pieces.take(k + 1)));
            let good = found_good(fs, root, paths);
            &&& here == Metadata::Found(FileKind::Symlink) ==> good == Err::<
                Set<Seq<char>>,
                Seq<char>,
            >("allowed source path must not contain symlinks"@)
            &&& here == Metadata::Unavailable ==> good == Err::<Set<Seq<char>>, Seq<char>>(
                "allowed source path metadata is unavailable"@,
            )
            &&& here == Metadata::NotFound ==> good == found_good(fs, root, paths.drop_first())
            &&& k + 1 < pieces.len() && (here == Metadata::Found(FileKind::File) || here
                == Metadata::Found(FileKind::Other)) ==> good == Err::<Set<Seq<char>>, Seq<char>>(
                "allowed source path parent must be a real directory"@,
            )
            &&& k + 1 == pieces.len() && (here == Metadata::Found(FileKind::Directory) || here
                == Metadata::Found(FileKind::Other)) ==> good == Err::<Set<Seq<char>>, Seq<char>>(
                "allowed source path must reference a regular file"@,
            )
            &&& k + 1 == pieces.len() && here == Metadata::Found(FileKind::File) ==> (
            real_source_path(root, (fs.canonical)(descend(root, pieces))) matches Err(reason)
                ==> good == Err::<Set<Seq<char>>, Seq<char>>(reason))
        }),
{
    let pieces = text::split(paths[0], '/');
    lemma_walk_down(fs, root, pieces, 0, k);
    if k + 1 == pieces.len() {
        assert(pieces.take(k + 1) =~= pieces);
    }
}

/// A project's directory that is not a real directory with a real path of text is told so.
pub proof fn bad_project_root_is_told(
    fs: FileSystem,
    root: Seq<char>,
    paths: Seq<Seq<char>>,
    place: Seq<u8>,
)
    ensures
        ({
            let here = (fs.metadata)(encode_utf8(root));
            let resolved = (fs.canonical)(encode_utf8(root));
            let outcome = validated(fs, root, Some(paths));
            &&& here == Metadata::NotFound || here == Metadata::Unavailable ==> outcome == Err::<
                ScopeModel,
                Seq<char>,
            >("project root is unavailable for source scope validation"@)
            &&& here == Metadata::Found(FileKind::Symlink) || here == Metadata::Found(
                FileKind::File,
            ) || here == Metadata::Found(FileKind::Other) ==> outcome == Err::<
                ScopeModel,
                Seq<char>,
            >("project root must be a real directory for explicit source scope"@)
            &&& here == Metadata::Found(FileKind::Directory) && resolved is None ==> outcome == Err::<
                ScopeModel,
                Seq<char>,
            >("project root cannot be canonicalized for source scope validation"@)
            &&& here == Metadata::Found(FileKind::Directory) && resolved == Some(place) ==> (
            found_good(fs, place, paths) matches Err(reason) ==> outcome == Err::<
                ScopeModel,
                Seq<char>,
            >(reason))
            &&& here == Metadata::Found(FileKind::Directory) && resolved == Some(place) && !valid_utf8(
                place,
            ) && found_good(fs, place, paths) is Ok ==> outcome == Err::<ScopeModel, Seq<char>>(
                "canonical project root must be valid UTF-8"@,
            )
        }),
{
}

/// A scope is taken for the directory and the paths that it holds.
pub proof fn scope_is_taken_as_it_is(scope: ValidatedSourceFileScope)
    ensures
        scope@.project_root == scope.project_root@,
        scope@.allowed is Some == scope.allowed_paths is Some,
        scope.allowed_paths matches Some(set) ==> scope@.allowed == Some(set@),
{
}

} // verus!

//! Finding a file inside a project, one question to the file system at a time.
//!
//! The file may be named by a path in the project or by an absolute path. Either way its real
//! path has to lie in the project's real directory.
use crate::paths;
use crate::response;
use crate::startup::Platform;
use crate::text;
use vstd::prelude::*;
use vstd::string::*;
use vstd::utf8::*;

verus! {

/// The states of the search for a file.
pub ghost enum ResolveModel {
    /// What is the real path of the project's directory?
    Root { platform: Platform, project_path: Seq<char>, wanted: Seq<char> },
    /// Is there anything at the path?
    Exists { platform: Platform, root: Seq<u8>, candidate: Seq<char>, absolute: bool },
    /// What is the real path of the file?
    Canonical { root: Seq<u8>, candidate: Seq<char> },
    Done(Result<Seq<u8>, Seq<char>>),
}

/// The search begins.
pub open spec fn begin(platform: Platform, project_path: Seq<char>, path: Seq<char>) -> ResolveModel {
    if text::trim(path).len() == 0 {
        ResolveModel::Done(Err("path must not be empty"@))
    } else {
        ResolveModel::Root { platform, project_path, wanted: text::trim(path) }
    }
}

/// The path that is looked at: an absolute one as it is, any other below the project.
pub open spec fn candidate_for(
    platform: Platform,
    project_path: Seq<char>,
    wanted: Seq<char>,
) -> Result<Seq<char>, Seq<char>> {
    if paths::is_absolute(platform, wanted) {
        Ok(wanted)
    } else {
        paths::inside(platform, project_path, wanted)
    }
}

/// What the answer about the project's directory leads to.
pub open spec fn after_root(
    platform: Platform,
    project_path: Seq<char>,
    wanted: Seq<char>,
    answer: Result<Seq<u8>, Seq<char>>,
) -> ResolveModel {
    match answer {
        Err(e) => ResolveModel::Done(Err("Failed to resolve project root: "@ + e)),
        Ok(root) => match candidate_for(platform, project_path, wanted) {
            Ok(candidate) => ResolveModel::Exists {
                platform,
                root,
                candidate,
                absolute: paths::is_absolute(platform, wanted),
            },
            Err(message) => ResolveModel::Done(Err(message)),
        },
    }
}

/// Whether a path, with `.` and `..` taken out of it, lies outside a directory.
pub open spec fn clearly_outside(platform: Platform, candidate: Seq<char>, root: Seq<u8>) -> bool {
    !paths::starts_with(
        paths::normal_parts(
            paths::byte_parts(encode_utf8(paths::slashed(platform, candidate))),
        ),
        paths::normal_parts(paths::byte_parts(root)),
    )
}

/// What the answer whether there is anything leads to.
pub open spec fn after_exists(
    platform: Platform,
    root: Seq<u8>,
    candidate: Seq<char>,
    absolute: bool,
    exists_there: bool,
) -> ResolveModel {
    if exists_there {
        ResolveModel::Canonical { root, candidate }
    } else if absolute && clearly_outside(platform, candidate, root) {
        ResolveModel::Done(Err("Path is outside project directory"@))
    } else {
        ResolveModel::Done(Err("File does not exist: "@ + candidate))
    }
}

/// What the answer about the real path of the file leads to.
pub open spec fn after_canonical(root: Seq<u8>, answer: Result<Seq<u8>, Seq<char>>) -> ResolveModel {
    ResolveModel::Done(
        match answer {
            Err(e) => Err("Failed to resolve path: "@ + e),
            Ok(path) => if paths::starts_with(paths::byte_parts(path), paths::byte_parts(root)) {
                Ok(path)
            } else {
                Err("Path is outside project directory"@)
            },
        },
    )
}

/// The search asks for the real path of the project's directory.
pub struct RootQuestion {
    pub platform: Platform,
    pub project_path: String,
    pub wanted: String,
}

/// The search asks whether there is anything at the path.
pub struct ExistsQuestion {
    pub platform: Platform,
    pub root: Vec<u8>,
    pub candidate: String,
    pub absolute: bool,
}

/// The search asks for the real path of the file.
pub struct CanonicalQuestion {
    pub root: Vec<u8>,
    pub candidate: String,
}

/// The step that the search is at.
pub enum ResolveStep {
    Root(RootQuestion),
    Exists(ExistsQuestion),
    Canonical(CanonicalQuestion),
    Done(Result<Vec<u8>, String>),
}

/// The value of an answer or an outcome with a path.
pub open spec fn path_view(answer: Result<Vec<u8>, String>) -> Result<Seq<u8>, Seq<char>> {
    match answer {
        Ok(path) => Ok(path@),
        Err(e) => Err(e@),
    }
}

impl View for ResolveStep {
    type V = ResolveModel;

    open spec fn view(&self) -> ResolveModel {
        match self {
            ResolveStep::Root(q) => ResolveModel::Root {
                platform: q.platform,
                project_path: q.project_path@,
                wanted: q.wanted@,
            },
            ResolveStep::Exists(q) => ResolveModel::Exists {
                platform: q.platform,
                root: q.root@,
                candidate: q.candidate@,
                absolute: q.absolute,
            },
            ResolveStep::Canonical(q) => ResolveModel::Canonical {
                root: q.root@,
                candidate: q.candidate@,
            },
            ResolveStep::Done(done) => ResolveModel::Done(path_view(*done)),
        }
    }
}

/// Begins the search for a file inside a project.
pub fn resolve_project_file_path(platform: Platform, project_path: &str, path: &str) -> (r:
    ResolveStep)
    ensures
        r@ == begin(platform, project_path@, path@),
{
    let wanted = text::trimmed(path);
    if text::chars_of(wanted.as_str()).len() == 0 {
        return ResolveStep::Done(Err("path must not be empty".to_owned()));
    }
    ResolveStep::Root(RootQuestion { platform, project_path: project_path.to_owned(), wanted })
}

impl RootQuestion {
    /// Takes the answer about the project's directory.
    pub fn answer(self, answer: Result<Vec<u8>, String>) -> (r: ResolveStep)
        ensures
            r@ == after_root(
                self.platform,
                self.project_path@,
                self.wanted@,
                path_view(answer),
            ),
    {
        let root = match answer {
            Ok(root) => root,
            Err(e) => {
                return ResolveStep::Done(
                    Err(response::message_with("Failed to resolve project root: ", e.as_str())),
                );
            },
        };
        let platform = self.platform;
        if paths::is_absolute_path(platform, self.wanted.as_str()) {
            return ResolveStep::Exists(
                ExistsQuestion { platform, root, candidate: self.wanted, absolute: true },
            );
        }
        match paths::safe_join(platform, self.project_path.as_str(), self.wanted.as_str()) {
            Ok(candidate) => ResolveStep::Exists(
                ExistsQuestion { platform, root, candidate, absolute: false },
            ),
            Err(message) => ResolveStep::Done(Err(message)),
        }
    }
}

impl ExistsQuestion {
    /// Takes the answer whether there is anything at the path.
    pub fn answer(self, exists_there: bool) -> (r: ResolveStep)
        ensures
            r@ == after_exists(
                self.platform,
                self.root@,
                self.candidate@,
                self.absolute,
                exists_there,
            ),
    {
        if exists_there {
            return ResolveStep::Canonical(
                CanonicalQuestion { root: self.root, candidate: self.candidate },
            );
        }
        if self.absolute {
            let candidate = paths::slashed_text(self.platform, self.candidate.as_str());
            let path = paths::normalize_path_components(
                paths::parts_of_bytes(candidate.as_str().as_bytes()),
            );
            let root = paths::normalize_path_components(
                paths::parts_of_bytes(self.root.as_slice()),
            );
            if !paths::path_starts_with(path.as_slice(), root.as_slice()) {
                return ResolveStep::Done(Err("Path is outside project directory".to_owned()));
            }
        }
        ResolveStep::Done(
            Err(response::message_with("File does not exist: ", self.candidate.as_str())),
        )
    }
}

impl CanonicalQuestion {
    /// Takes the answer about the real path of the file.
    pub fn answer(self, answer: Result<Vec<u8>, String>) -> (r: ResolveStep)
        ensures
            r@ == after_canonical(self.root@, path_view(answer)),
    {
        let path = match answer {
            Ok(path) => path,
            Err(e) => {
                return ResolveStep::Done(
                    Err(response::message_with("Failed to resolve path: ", e.as_str())),
                );
            },
        };
        let file = paths::parts_of_bytes(path.as_slice());
        let root = paths::parts_of_bytes(self.root.as_slice());
        if paths::path_starts_with(file.as_slice(), root.as_slice()) {
            ResolveStep::Done(Ok(path))
        } else {
            ResolveStep::Done(Err("Path is outside project directory".to_owned()))
        }
    }
}

/// A file system: the real path of each path, and whether there is anything at it.
pub ghost struct FileSystem {
    pub canonical: spec_fn(Seq<u8>) -> Result<Seq<u8>, Seq<char>>,
    pub existing: spec_fn(Seq<u8>) -> bool,
}

/// The step that follows when the file system answers.
pub open spec fn answered(fs: FileSystem, m: ResolveModel) -> ResolveModel {
    match m {
        ResolveModel::Root { platform, project_path, wanted } => after_root(
            platform,
            project_path,
            wanted,
            (fs.canonical)(encode_utf8(project_path)),
        ),
        ResolveModel::Exists { platform, root, candidate, absolute } => after_exists(
            platform,
            root,
            candidate,
            absolute,
            (fs.existing)(encode_utf8(candidate)),
        ),
        ResolveModel::Canonical { root, candidate } => after_canonical(
            root,
            (fs.canonical)(encode_utf8(candidate)),
        ),
        ResolveModel::Done(_) => m,
    }
}

/// What the search comes to when it is run against a file system: it asks three times at most.
pub open spec fn found(
    fs: FileSystem,
    platform: Platform,
    project_path: Seq<char>,
    path: Seq<char>,
) -> ResolveModel {
    answered(fs, answered(fs, answered(fs, begin(platform, project_path, path))))
}

/// The search ends, and a file that it finds is the real path of the one asked for: of the
/// trimmed path if that is absolute, else of that path below the project. It is there, and it
/// lies in the project's real directory.
pub proof fn found_file_is_inside(
    fs: FileSystem,
    platform: Platform,
    project_path: Seq<char>,
    path: Seq<char>,
)
    ensures
        found(fs, platform, project_path, path) is Done,
        found(fs, platform, project_path, path)->Done_0 matches Ok(file) ==> {
            &&& (fs.canonical)(encode_utf8(project_path)) matches Ok(root) && paths::starts_with(
                paths::byte_parts(file),
                paths::byte_parts(root),
            )
            &&& candidate_for(platform, project_path, text::trim(path)) matches Ok(candidate) && (
            fs.existing)(encode_utf8(candidate)) && (fs.canonical)(encode_utf8(candidate)) == Ok::<
                Seq<u8>,
                Seq<char>,
            >(file)
        },
{
}

/// A path in the project that leads out of it is not even looked for.
pub proof fn upward_path_is_refused(
    fs: FileSystem,
    platform: Platform,
    project_path: Seq<char>,
    path: Seq<char>,
)
    requires
        !paths::is_absolute(platform, text::trim(path)),
        text::trim(path).len() > 0,
        paths::inside(platform, project_path, text::trim(path)) is Err,
        (fs.canonical)(encode_utf8(project_path)) is Ok,
    ensures
        found(fs, platform, project_path, path) == ResolveModel::Done(
            Err(paths::inside(platform, project_path, text::trim(path))->Err_0),
        ),
{
}

/// A file that is there and whose real path lies in the project's real directory is found, by a
/// path in the project or by an absolute one.
pub proof fn existing_file_is_found(
    fs: FileSystem,
    platform: Platform,
    project_path: Seq<char>,
    path: Seq<char>,
    root: Seq<u8>,
    file: Seq<u8>,
)
    requires
        text::trim(path).len() > 0,
        (fs.canonical)(encode_utf8(project_path)) == Ok::<Seq<u8>, Seq<char>>(root),
        paths::starts_with(paths::byte_parts(file), paths::byte_parts(root)),
    ensures
        ({
            let wanted = text::trim(path);
            let candidate = if paths::is_absolute(platform, wanted) {
                Ok(wanted)
            } else {
                paths::inside(platform, project_path, wanted)
            };
            candidate matches Ok(candidate) && (fs.existing)(encode_utf8(candidate)) && (
            fs.canonical)(encode_utf8(candidate)) == Ok::<Seq<u8>, Seq<char>>(file)
        }) ==> found(fs, platform, project_path, path) == ResolveModel::Done(Ok(file)),
{
}

/// A file that is not there is told as missing, and one whose real path lies outside the project as
/// outside; a blank path is refused.
pub proof fn missing_file_is_told(
    fs: FileSystem,
    platform: Platform,
    project_path: Seq<char>,
    path: Seq<char>,
    root: Seq<u8>,
    candidate: Seq<char>,
)
    requires
        (fs.canonical)(encode_utf8(project_path)) == Ok::<Seq<u8>, Seq<char>>(root),
        paths::inside(platform, project_path, text::trim(path)) == Ok::<Seq<char>, Seq<char>>(
            candidate,
        ),
        !paths::is_absolute(platform, text::trim(path)),
        text::trim(path).len() > 0,
    ensures
        !(fs.existing)(encode_utf8(candidate)) ==> found(fs, platform, project_path, path)
            == ResolveModel::Done(Err("File does not exist: "@ + candidate)),
        (fs.existing)(encode_utf8(candidate)) ==> ((fs.canonical)(
            encode_utf8(candidate),
        ) matches Ok(file) ==> (!paths::starts_with(
            paths::byte_parts(file),
            paths::byte_parts(root),
        ) ==> found(fs, platform, project_path, path) == ResolveModel::Done(
            Err("Path is outside project directory"@),
        ))),
        begin(platform, project_path, Seq::empty()) == ResolveModel::Done(
            Err("path must not be empty"@),
        ),
{
    text::trim_takes_edges(Seq::empty(), text::CharClass::White);
}

/// An absolute path to nothing is told as outside the project where, with its dots taken out, it
/// does not begin with the project's real directory, and otherwise as missing.
pub proof fn absolute_path_is_judged(
    fs: FileSystem,
    platform: Platform,
    project_path: Seq<char>,
    path: Seq<char>,
    root: Seq<u8>,
)
    requires
        platform != Platform::Windows,
        text::trim(path).len() > 0,
        paths::is_absolute(platform, text::trim(path)),
        (fs.canonical)(encode_utf8(project_path)) == Ok::<Seq<u8>, Seq<char>>(root),
        !(fs.existing)(encode_utf8(text::trim(path))),
    ensures
        ({
            let bare = paths::normal_parts(paths::byte_parts(encode_utf8(text::trim(path))));
            let below = paths::starts_with(
                bare,
                paths::normal_parts(paths::byte_parts(root)),
            );
            &&& !below ==> found(fs, platform, project_path, path) == ResolveModel::Done(
                Err("Path is outside project directory"@),
            )
            &&& below ==> found(fs, platform, project_path, path) == ResolveModel::Done(
                Err("File does not exist: "@ + text::trim(path)),
            )
        }),
{
}

/// Answers of the file system are taken for what they say.
pub proof fn resolve_answers_are_kept(path: Vec<u8>, message: String)
    ensures
        path_view(Ok(path)) == Ok::<Seq<u8>, Seq<char>>(path@),
        path_view(Err(message)) == Err::<Seq<u8>, Seq<char>>(message@),
{
}

/// Where the file system does not give the real path of the project's directory, or of a file that
/// is there, its words are told.
pub proof fn unreadable_paths_are_told(
    fs: FileSystem,
    platform: Platform,
    project_path: Seq<char>,
    path: Seq<char>,
    candidate: Seq<char>,
    message: Seq<char>,
)
    requires
        text::trim(path).len() > 0,
    ensures
        (fs.canonical)(encode_utf8(project_path)) == Err::<Seq<u8>, Seq<char>>(message) ==> found(
            fs,
            platform,
            project_path,
            path,
        ) == ResolveModel::Done(Err("Failed to resolve project root: "@ + message)),
        (fs.canonical)(encode_utf8(project_path)) is Ok && (if paths::is_absolute(
            platform,
            text::trim(path),
        ) {
            candidate == text::trim(path)
        } else {
            paths::inside(platform, project_path, text::trim(path)) == Ok::<Seq<char>, Seq<char>>(
                candidate,
            )
        }) && (fs.existing)(encode_utf8(candidate)) && (fs.canonical)(encode_utf8(candidate))
            == Err::<Seq<u8>, Seq<char>>(message) ==> found(fs, platform, project_path, path)
            == ResolveModel::Done(Err("Failed to resolve path: "@ + message)),
{
}

} // verus!

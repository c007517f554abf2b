//! Listing the files of a project, one question to the file system at a time.
//!
//! Names that begin with a dot, and symbolic links, are left out. Every other entry counts
//! against a limit; a listing that exceeds it is refused. Of the entries of one directory the
//! directories come first, and each kind goes by name.
use crate::json;
use crate::json::{Fields, Json, JsonModel};
use crate::order;
use crate::order::{Placed, Ranked};
use crate::paths;
use crate::response;
use crate::text;
use std::collections::VecDeque;
use vstd::prelude::*;
use vstd::string::*;
use vstd::utf8::*;

verus! {

/// A file or directory of a listing. A directory that was not looked into has no children.
pub struct ApiFileNode {
    pub name: String,
    pub path: String,
    pub is_dir: bool,
    pub size: Option<u64>,
    pub children: Option<Vec<ApiFileNode>>,
}

/// The mathematical value of a file or directory of a listing.
pub ghost struct FileModel {
    pub name: Seq<char>,
    pub path: Seq<char>,
    pub is_dir: bool,
    pub size: Option<u64>,
    pub children: Option<Seq<FileModel>>,
}

/// The mathematical value of a node.
pub open spec fn file_model(node: ApiFileNode) -> FileModel
    decreases node,
{
    FileModel {
        name: node.name@,
        path: node.path@,
        is_dir: node.is_dir,
        size: node.size,
        children: match node.children {
            None => None,
            Some(children) => Some(
                Seq::new(
                    children@.len(),
                    |i: int|
                        if 0 <= i < children@.len() {
                            file_model(children@[i])
                        } else {
                            arbitrary()
                        },
                ),
            ),
        },
    }
}

/// The values of some nodes.
pub open spec fn file_models(nodes: Seq<ApiFileNode>) -> Seq<FileModel> {
    nodes.map_values(|node: ApiFileNode| file_model(node))
}

proof fn lemma_children(node: ApiFileNode)
    ensures
        file_model(node).children == (match node.children {
            None => None,
            Some(children) => Some(file_models(children@)),
        }),
{
    match node.children {
        None => {},
        Some(children) => {
            assert(file_model(node).children->0 =~= file_models(children@));
        },
    }
}

impl Placed for FileModel {
    /// Directories go first.
    open spec fn rank(&self) -> Option<int> {
        if self.is_dir {
            Some(1)
        } else {
            Some(0)
        }
    }

    /// Each kind goes by name.
    open spec fn tag(&self) -> Seq<char> {
        self.name
    }
}

impl Placed for ApiFileNode {
    open spec fn rank(&self) -> Option<int> {
        if self.is_dir {
            Some(1)
        } else {
            Some(0)
        }
    }

    open spec fn tag(&self) -> Seq<char> {
        self.name@
    }
}

impl Ranked for ApiFileNode {
    fn goes_ahead_of(&self, other: &Self) -> (r: bool) {
        (self.is_dir && !other.is_dir) || (self.is_dir == other.is_dir && order::comes_before(
            self.name.as_str(),
            other.name.as_str(),
        ))
    }
}

/// What an entry of a directory is, without following a symbolic link.
#[derive(Clone, Copy, Debug, PartialEq, Eq, Structural)]
pub enum EntryKind {
    Symlink,
    Directory,
    /// Anything else, with its size.
    File(u64),
}

/// What a listing is to hold.
pub ghost struct Settings {
    pub project_path: Seq<char>,
    pub recursive: bool,
    pub max_files: nat,
}

/// An entry of a directory: its path, or why it could not be read.
pub type Entry = Result<Vec<u8>, String>;

/// The value of an entry.
pub open spec fn entry_model(entry: Entry) -> Result<Seq<u8>, Seq<char>> {
    match entry {
        Ok(path) => Ok(path@),
        Err(message) => Err(message@),
    }
}

/// The values of some entries.
pub open spec fn entry_models(entries: Seq<Entry>) -> Seq<Result<Seq<u8>, Seq<char>>> {
    entries.map_values(|entry: Entry| entry_model(entry))
}

/// A directory that is being listed: the entries that are left, the nodes that were made,
/// whether they are to be sorted, and the name and path of the directory, if it is itself a node.
pub ghost struct FrameModel {
    pub entries: Seq<Result<Seq<u8>, Seq<char>>>,
    pub out: Seq<FileModel>,
    pub sorted: bool,
    pub over: Option<(Seq<char>, Seq<char>)>,
}

/// The states of a listing.
pub ghost enum ListModel {
    /// What is the entry?
    Metadata {
        settings: Settings,
        stack: Seq<FrameModel>,
        count: nat,
        path: Seq<u8>,
        name: Seq<char>,
    },
    /// What does the directory hold?
    Directory {
        settings: Settings,
        stack: Seq<FrameModel>,
        count: nat,
        path: Seq<u8>,
        over: Option<(Seq<char>, Seq<char>)>,
    },
    Done(Result<Seq<FileModel>, Seq<char>>),
}

/// The name of an entry; none where it is not valid Unicode.
pub open spec fn entry_name(path: Seq<u8>) -> Seq<char> {
    match paths::byte_file_name(path) {
        Some(name) => name,
        None => Seq::empty(),
    }
}

/// Whether a name is left out of listings.
pub open spec fn is_hidden(name: Seq<char>) -> bool {
    name.len() > 0 && name[0] == '.'
}

/// The nodes of a directory whose entries were all looked at.
pub open spec fn finished(frame: FrameModel) -> Seq<FileModel> {
    if frame.sorted {
        order::ranked(frame.out)
    } else {
        frame.out
    }
}

/// A directory with its children as a node.
pub open spec fn directory_node(
    over: (Seq<char>, Seq<char>),
    children: Option<Seq<FileModel>>,
) -> FileModel {
    FileModel { name: over.0, path: over.1, is_dir: true, size: None, children }
}

/// The directories with one more node in the innermost.
pub open spec fn with_node(stack: Seq<FrameModel>, node: FileModel) -> Seq<FrameModel> {
    let top = stack.last();
    stack.drop_last().push(FrameModel { out: top.out.push(node), ..top })
}

/// How much is left to look at.
pub open spec fn weight(stack: Seq<FrameModel>) -> nat
    decreases stack.len(),
{
    if stack.len() == 0 {
        0
    } else {
        weight(stack.drop_last()) + stack.last().entries.len() + 1
    }
}

proof fn lemma_weight_push(stack: Seq<FrameModel>, frame: FrameModel)
    ensures
        weight(stack.push(frame)) == weight(stack) + frame.entries.len() + 1,
{
    assert(stack.push(frame).drop_last() =~= stack);
}

/// The listing goes on to the next entry that it has to ask about, or ends.
pub open spec fn settle(settings: Settings, stack: Seq<FrameModel>, count: nat) -> ListModel
    decreases weight(stack),
{
    if stack.len() == 0 {
        ListModel::Done(Ok(Seq::empty()))
    } else {
        let top = stack.last();
        let below = stack.drop_last();
        if top.entries.len() == 0 {
            match top.over {
                Some(over) => if below.len() == 0 {
                    ListModel::Done(Ok(finished(top)))
                } else {
                    proof {
                        assert(with_node(
                            below,
                            directory_node(over, Some(finished(top))),
                        ).drop_last() =~= below.drop_last());
                        assert(weight(below) == weight(below.drop_last())
                            + below.last().entries.len() + 1);
                    }
                    settle(
                        settings,
                        with_node(below, directory_node(over, Some(finished(top)))),
                        count,
                    )
                },
                None => ListModel::Done(Ok(finished(top))),
            }
        } else {
            match top.entries[0] {
                Err(message) => ListModel::Done(
                    Err("Failed to read directory entry: "@ + message),
                ),
                Ok(path) => {
                    let name = entry_name(path);
                    let rest = FrameModel { entries: top.entries.drop_first(), ..top };
                    if is_hidden(name) {
                        proof {
                            assert(below.push(rest).drop_last() =~= below);
                        }
                        settle(settings, below.push(rest), count)
                    } else {
                        ListModel::Metadata {
                            settings,
                            stack: below.push(rest),
                            count,
                            path,
                            name,
                        }
                    }
                },
            }
        }
    }
}

/// Why a listing that exceeds its limit is refused.
pub open spec fn over_limit(max_files: nat) -> Seq<char> {
    "File listing exceeds maxFiles limit ("@ + text::decimal(max_files) + ")"@
}

/// What the answer about an entry leads to.
pub open spec fn after_metadata(
    settings: Settings,
    stack: Seq<FrameModel>,
    count: nat,
    path: Seq<u8>,
    name: Seq<char>,
    answer: Result<EntryKind, Seq<char>>,
) -> ListModel {
    let shown = paths::shown_path(settings.project_path, path);
    match answer {
        Err(message) => ListModel::Done(Err("Failed to read metadata: "@ + message)),
        Ok(EntryKind::Symlink) => settle(settings, stack, count),
        Ok(kind) => if count >= settings.max_files {
            ListModel::Done(Err(over_limit(settings.max_files)))
        } else {
            match kind {
                EntryKind::File(size) => settle(
                    settings,
                    with_node(
                        stack,
                        FileModel {
                            name,
                            path: shown,
                            is_dir: false,
                            size: Some(size),
                            children: None,
                        },
                    ),
                    count + 1,
                ),
                _ => if settings.recursive {
                    ListModel::Directory {
                        settings,
                        stack,
                        count: count + 1,
                        path,
                        over: Some((name, shown)),
                    }
                } else {
                    settle(settings, with_node(stack, directory_node((name, shown), None)), count + 1)
                },
            }
        },
    }
}

/// What the answer about a directory leads to.
pub open spec fn after_directory(
    settings: Settings,
    stack: Seq<FrameModel>,
    count: nat,
    over: Option<(Seq<char>, Seq<char>)>,
    answer: Result<Seq<Result<Seq<u8>, Seq<char>>>, Seq<char>>,
) -> ListModel {
    match answer {
        Err(message) => ListModel::Done(Err("Failed to list directory: "@ + message)),
        Ok(entries) => settle(
            settings,
            stack.push(FrameModel { entries, out: Seq::empty(), sorted: true, over }),
            count,
        ),
    }
}

/// A listing of one directory begins.
pub open spec fn begin_tree(settings: Settings, path: Seq<u8>) -> ListModel {
    ListModel::Directory { settings, stack: Seq::empty(), count: 0, path, over: None }
}

/// A listing of some files and directories, in the order given, begins.
pub open spec fn begin_roots(settings: Settings, roots: Seq<Result<Seq<u8>, Seq<char>>>) -> ListModel {
    settle(
        settings,
        Seq::empty().push(
            FrameModel { entries: roots, out: Seq::empty(), sorted: false, over: None },
        ),
        0,
    )
}

struct Frame {
    entries: VecDeque<Entry>,
    out: Vec<ApiFileNode>,
    sorted: bool,
    over: Option<(String, String)>,
}

spec fn over_model(over: Option<(String, String)>) -> Option<(Seq<char>, Seq<char>)> {
    match over {
        Some(over) => Some((over.0@, over.1@)),
        None => None,
    }
}

spec fn frame_model(frame: Frame) -> FrameModel {
    FrameModel {
        entries: entry_models(frame.entries@),
        out: file_models(frame.out@),
        sorted: frame.sorted,
        over: over_model(frame.over),
    }
}

spec fn frame_models(frames: Seq<Frame>) -> Seq<FrameModel> {
    frames.map_values(|frame: Frame| frame_model(frame))
}

/// What a listing has come to.
struct Listing {
    project_path: String,
    recursive: bool,
    max_files: usize,
    count: usize,
    stack: Vec<Frame>,
}

impl Listing {
    spec fn settings(self) -> Settings {
        Settings {
            project_path: self.project_path@,
            recursive: self.recursive,
            max_files: self.max_files as nat,
        }
    }

    spec fn frames(self) -> Seq<FrameModel> {
        frame_models(self.stack@)
    }
}

/// A listing that asks about an entry.
pub struct EntryQuestion {
    listing: Listing,
    path: Vec<u8>,
    name: String,
}

/// A listing that asks about a directory.
pub struct DirectoryQuestion {
    listing: Listing,
    path: Vec<u8>,
    over: Option<(String, String)>,
}

/// The step that a listing is at.
pub enum ListStep {
    Metadata(EntryQuestion),
    Directory(DirectoryQuestion),
    Done(Result<Vec<ApiFileNode>, String>),
}

impl View for ListStep {
    type V = ListModel;

    open spec fn view(&self) -> ListModel {
        match self {
            ListStep::Metadata(question) => ListModel::Metadata {
                settings: question.settings(),
                stack: question.stack(),
                count: question.count(),
                path: question.asked(),
                name: question.name(),
            },
            ListStep::Directory(question) => ListModel::Directory {
                settings: question.settings(),
                stack: question.stack(),
                count: question.count(),
                path: question.asked(),
                over: question.over(),
            },
            ListStep::Done(Ok(nodes)) => ListModel::Done(Ok(file_models(nodes@))),
            ListStep::Done(Err(message)) => ListModel::Done(Err(message@)),
        }
    }
}

/// Sorts the nodes of a directory.
fn sort_nodes(nodes: Vec<ApiFileNode>) -> (r: Vec<ApiFileNode>)
    ensures
        file_models(r@) == order::ranked(file_models(nodes@)),
{
    proof {
        order::ranked_map(nodes@, |node: ApiFileNode| file_model(node));
    }
    order::sort_ranked(nodes)
}

/// Adds a node to the innermost directory.
fn add_node(stack: Vec<Frame>, node: ApiFileNode) -> (r: Vec<Frame>)
    requires
        stack@.len() > 0,
    ensures
        frame_models(r@) == with_node(frame_models(stack@), file_model(node)),
{
    let ghost before = stack@;
    let mut stack = stack;
    match stack.pop() {
        Some(top) => {
            let mut top = top;
            let ghost out = top.out@;
            top.out.push(node);
            assert(file_models(top.out@) =~= file_models(out).push(file_model(node)));
            stack.push(top);
        },
        None => {},
    }
    assert(frame_models(stack@) =~= with_node(frame_models(before), file_model(node)));
    stack
}

/// Tells the name of an entry.
fn name_of(path: &Vec<u8>) -> (r: String)
    ensures
        r@ == entry_name(path@),
{
    match paths::byte_file_name_of(path.as_slice()) {
        Some(name) => name,
        None => {
            let r = String::new();
            assert(r@ =~= Seq::empty());
            r
        },
    }
}

/// Tests whether a name is left out of listings.
fn hides(name: &str) -> (r: bool)
    ensures
        r == is_hidden(name@),
{
    let v = text::chars_of(name);
    v.len() > 0 && v[0] == '.'
}

/// Goes on to the next entry to ask about.
fn go_on(listing: Listing) -> (r: ListStep)
    ensures
        r@ == settle(listing.settings(), listing.frames(), listing.count as nat),
{
    let ghost settings = listing.settings();
    let ghost goal = settle(settings, listing.frames(), listing.count as nat);
    let Listing { project_path, recursive, max_files, count, stack } = listing;
    let mut stack = stack;
    loop
        invariant
            settings == (Settings {
                project_path: project_path@,
                recursive,
                max_files: max_files as nat,
            }),
            goal == settle(settings, frame_models(stack@), count as nat),
            goal == settle(listing.settings(), listing.frames(), listing.count as nat),
        decreases weight(frame_models(stack@)),
    {
        let ghost all = frame_models(stack@);
        let mut top = match stack.pop() {
            Some(top) => top,
            None => {
                let nodes: Vec<ApiFileNode> = Vec::new();
                assert(file_models(nodes@) =~= Seq::empty());
                return ListStep::Done(Ok(nodes));
            },
        };
        let ghost below = frame_models(stack@);
        let ghost frame = frame_model(top);
        proof {
            assert(all.last() == frame);
            assert(all.drop_last() =~= below);
            lemma_weight_push(below, frame);
            assert(below.push(frame) =~= all);
        }
        match top.entries.pop_front() {
            None => {
                assert(frame.entries.len() == 0);
                let nodes = if top.sorted {
                    sort_nodes(top.out)
                } else {
                    top.out
                };
                assert(file_models(nodes@) == finished(frame));
                match top.over {
                    None => {
                        return ListStep::Done(Ok(nodes));
                    },
                    Some((name, path)) => {
                        if stack.len() == 0 {
                            return ListStep::Done(Ok(nodes));
                        }
                        let node = ApiFileNode {
                            name,
                            path,
                            is_dir: true,
                            size: None,
                            children: Some(nodes),
                        };
                        proof {
                            lemma_children(node);
                            lemma_weight_push(
                                below.drop_last(),
                                with_node(below, file_model(node)).last(),
                            );
                        }
                        stack = add_node(stack, node);
                    },
                }
            },
            Some(Err(message)) => {
                assert(frame.entries[0] == entry_model(Err(message)));
                return ListStep::Done(
                    Err(
                        response::message_with(
                            "Failed to read directory entry: ",
                            message.as_str(),
                        ),
                    ),
                );
            },
            Some(Ok(path)) => {
                proof {
                    assert(frame.entries[0] == entry_model(Ok(path)));
                    assert(frame_model(top).entries =~= frame.entries.drop_first());
                    lemma_weight_push(below, frame_model(top));
                }
                let name = name_of(&path);
                stack.push(top);
                assert(frame_models(stack@) =~= below.push(frame_model(top)));
                if !hides(name.as_str()) {
                    let listing = Listing { project_path, recursive, max_files, count, stack };
                    return ListStep::Metadata(EntryQuestion { listing, path, name });
                }
            },
        }
    }
}

/// Makes a queue of entries.
fn queue_of(entries: Vec<Entry>) -> (r: VecDeque<Entry>)
    ensures
        r@ == entries@,
{
    let mut queue: VecDeque<Entry> = VecDeque::new();
    let ghost all = entries@;
    for entry in it: entries
        invariant
            it.seq() == all,
            queue@ == all.take(it.index() as int),
    {
        queue.push_back(entry);
        assert(queue@ =~= all.take(it.index() + 1));
    }
    assert(all.take(all.len() as int) =~= all);
    queue
}

/// Why a listing that exceeds its limit is refused.
fn over_limit_message(max_files: usize) -> (r: String)
    ensures
        r@ == over_limit(max_files as nat),
{
    let mut r = "File listing exceeds maxFiles limit (".to_owned();
    r.append(text::decimal_text(max_files as u64).as_str());
    r.append(")");
    r
}

/// The value of an answer about an entry.
pub open spec fn kind_view(answer: Result<EntryKind, String>) -> Result<EntryKind, Seq<char>> {
    match answer {
        Ok(kind) => Ok(kind),
        Err(message) => Err(message@),
    }
}

impl EntryQuestion {
    /// What the listing is to hold.
    pub closed spec fn settings(&self) -> Settings {
        self.listing.settings()
    }

    /// The directories that are being listed, the innermost last.
    pub closed spec fn stack(&self) -> Seq<FrameModel> {
        self.listing.frames()
    }

    /// How many entries were counted.
    pub closed spec fn count(&self) -> nat {
        self.listing.count as nat
    }

    /// The path of the entry.
    pub closed spec fn asked(&self) -> Seq<u8> {
        self.path@
    }

    /// The name of the entry.
    pub closed spec fn name(&self) -> Seq<char> {
        self.name@
    }

    #[verifier::type_invariant]
    closed spec fn in_directory(&self) -> bool {
        self.listing.stack@.len() > 0
    }

    /// The path of the entry that the file system is asked about.
    pub fn path(&self) -> (r: &Vec<u8>)
        ensures
            r@ == self.asked(),
    {
        &self.path
    }

    /// Takes the answer about the entry.
    pub fn answer(self, answer: Result<EntryKind, String>) -> (r: ListStep)
        ensures
            r@ == after_metadata(
                self.settings(),
                self.stack(),
                self.count(),
                self.asked(),
                self.name(),
                kind_view(answer),
            ),
    {
        proof {
            use_type_invariant(&self);
        }
        let EntryQuestion { listing, path, name } = self;
        let kind = match answer {
            Ok(kind) => kind,
            Err(message) => {
                return ListStep::Done(
                    Err(response::message_with("Failed to read metadata: ", message.as_str())),
                );
            },
        };
        if kind == EntryKind::Symlink {
            return go_on(listing);
        }
        let Listing { project_path, recursive, max_files, count, stack } = listing;
        if count >= max_files {
            return ListStep::Done(Err(over_limit_message(max_files)));
        }
        let count: usize = count + 1;
        let shown = paths::relative_to_project(project_path.as_str(), path.as_slice());
        match kind {
            EntryKind::File(size) => {
                let node = ApiFileNode {
                    name,
                    path: shown,
                    is_dir: false,
                    size: Some(size),
                    children: None,
                };
                let stack = add_node(stack, node);
                go_on(Listing { project_path, recursive, max_files, count, stack })
            },
            _ => {
                if recursive {
                    let listing = Listing { project_path, recursive, max_files, count, stack };
                    return ListStep::Directory(
                        DirectoryQuestion { listing, path, over: Some((name, shown)) },
                    );
                }
                let node = ApiFileNode {
                    name,
                    path: shown,
                    is_dir: true,
                    size: None,
                    children: None,
                };
                let stack = add_node(stack, node);
                go_on(Listing { project_path, recursive, max_files, count, stack })
            },
        }
    }
}

/// The value of an answer about a directory.
pub open spec fn entries_view(answer: Result<Vec<Entry>, String>) -> Result<
    Seq<Result<Seq<u8>, Seq<char>>>,
    Seq<char>,
> {
    match answer {
        Ok(entries) => Ok(entry_models(entries@)),
        Err(message) => Err(message@),
    }
}

impl DirectoryQuestion {
    /// What the listing is to hold.
    pub closed spec fn settings(&self) -> Settings {
        self.listing.settings()
    }

    /// The directories that are being listed, the innermost last.
    pub closed spec fn stack(&self) -> Seq<FrameModel> {
        self.listing.frames()
    }

    /// How many entries were counted.
    pub closed spec fn count(&self) -> nat {
        self.listing.count as nat
    }

    /// The path of the directory.
    pub closed spec fn asked(&self) -> Seq<u8> {
        self.path@
    }

    /// The name and the shown path of the directory, if it is itself a node.
    pub closed spec fn over(&self) -> Option<(Seq<char>, Seq<char>)> {
        over_model(self.over)
    }

    /// The path of the directory that the file system is asked about.
    pub fn path(&self) -> (r: &Vec<u8>)
        ensures
            r@ == self.asked(),
    {
        &self.path
    }

    /// Takes the answer about the directory.
    pub fn answer(self, answer: Result<Vec<Entry>, String>) -> (r: ListStep)
        ensures
            r@ == after_directory(
                self.settings(),
                self.stack(),
                self.count(),
                self.over(),
                entries_view(answer),
            ),
    {
        let entries = match answer {
            Ok(entries) => entries,
            Err(message) => {
                return ListStep::Done(
                    Err(response::message_with("Failed to list directory: ", message.as_str())),
                );
            },
        };
        let DirectoryQuestion { listing, path: _, over } = self;
        let Listing { project_path, recursive, max_files, count, stack } = listing;
        let ghost before = frame_models(stack@);
        let frame = Frame { entries: queue_of(entries), out: Vec::new(), sorted: true, over };
        assert(file_models(frame.out@) =~= Seq::empty());
        let ghost model = frame_model(frame);
        let mut stack = stack;
        stack.push(frame);
        assert(frame_models(stack@) =~= before.push(model));
        go_on(Listing { project_path, recursive, max_files, count, stack })
    }
}

/// Begins the listing of one directory.
pub fn list_tree(project_path: &str, path: Vec<u8>, recursive: bool, max_files: usize) -> (r: ListStep)
    ensures
        r@ == begin_tree(
            Settings { project_path: project_path@, recursive, max_files: max_files as nat },
            path@,
        ),
{
    let listing = Listing {
        project_path: project_path.to_owned(),
        recursive,
        max_files,
        count: 0,
        stack: Vec::new(),
    };
    assert(listing.frames() =~= Seq::empty());
    ListStep::Directory(DirectoryQuestion { listing, path, over: None })
}

/// The files and directories of a project that are public.
pub open spec fn public_names() -> Seq<Seq<char>> {
    Seq::empty().push("purpose.md"@).push("schema.md"@).push("wiki"@).push("raw/sources"@)
}

/// The public files and directories of a project, those that are there.
pub open spec fn public_roots(
    project_path: Seq<char>,
    names: Seq<Seq<char>>,
    present: Seq<bool>,
) -> Seq<Result<Seq<u8>, Seq<char>>>
    decreases names.len(),
{
    if names.len() == 0 {
        Seq::empty()
    } else {
        let before = public_roots(project_path, names.drop_last(), present);
        let i = names.len() - 1;
        if i < present.len() && present[i] {
            before.push(Ok(encode_utf8(paths::join(project_path, names[i]))))
        } else {
            before
        }
    }
}

/// The paths of the public files and directories of a project.
pub fn public_root_paths(project_path: &str) -> (r: Vec<String>)
    ensures
        text::views(r@) == public_names().map_values(
            |name: Seq<char>| paths::join(project_path@, name),
        ),
{
    let r = vec![
        paths::joined(project_path, "purpose.md"),
        paths::joined(project_path, "schema.md"),
        paths::joined(project_path, "wiki"),
        paths::joined(project_path, "raw/sources"),
    ];
    assert(text::views(r@) =~= public_names().map_values(
        |name: Seq<char>| paths::join(project_path@, name),
    ));
    r
}

/// Begins the listing of what is public in a project. Of each public path it is told whether
/// there is anything.
pub fn list_public_roots(project_path: &str, present: &[bool], recursive: bool, max_files: usize) -> (r:
    ListStep)
    ensures
        r@ == begin_roots(
            Settings { project_path: project_path@, recursive, max_files: max_files as nat },
            public_roots(project_path@, public_names(), present@),
        ),
{
    let all = public_root_paths(project_path);
    let ghost names = public_names();
    let mut entries: VecDeque<Entry> = VecDeque::new();
    assert(names.take(0) =~= Seq::empty());
    assert(entry_models(entries@) =~= Seq::empty());
    assert(text::views(all@).len() == names.len());
    let mut i: usize = 0;
    while i < all.len()
        invariant
            i <= all@.len(),
            names == public_names(),
            all@.len() == names.len(),
            text::views(all@) == names.map_values(
                |name: Seq<char>| paths::join(project_path@, name),
            ),
            entry_models(entries@) == public_roots(project_path@, names.take(i as int), present@),
        decreases all@.len() - i,
    {
        proof {
            assert(names.take(i + 1).drop_last() =~= names.take(i as int));
            assert(text::views(all@)[i as int] == all@[i as int]@);
        }
        if i < present.len() && present[i] {
            let ghost before = entry_models(entries@);
            let path = vstd::slice::slice_to_vec(all[i].as_str().as_bytes());
            let ghost model = entry_model(Ok(path));
            entries.push_back(Ok(path));
            assert(entry_models(entries@) =~= before.push(model));
        }
        i = i + 1;
    }
    assert(names.take(i as int) =~= names);
    let frame = Frame { entries, out: Vec::new(), sorted: false, over: None };
    assert(file_models(frame.out@) =~= Seq::empty());
    let ghost model = frame_model(frame);
    let mut stack: Vec<Frame> = Vec::new();
    stack.push(frame);
    assert(frame_models(stack@) =~= Seq::empty().push(model));
    go_on(
        Listing { project_path: project_path.to_owned(), recursive, max_files, count: 0, stack },
    )
}

/// A file or directory as JSON.
pub open spec fn node_json_model(node: FileModel) -> JsonModel
    decreases node,
{
    JsonModel::Object(
        json::no_fields().push(("name"@, JsonModel::Text(node.name))).push(
            ("path"@, JsonModel::Text(node.path)),
        ).push(("isDir"@, JsonModel::Bool(node.is_dir))).push(
            (
                "size"@,
                match node.size {
                    Some(size) => JsonModel::UInt(size as nat),
                    None => JsonModel::Null,
                },
            ),
        ).push(
            (
                "children"@,
                match node.children {
                    Some(children) => JsonModel::Array(
                        Seq::new(
                            children.len(),
                            |i: int|
                                if 0 <= i < children.len() {
                                    node_json_model(children[i])
                                } else {
                                    JsonModel::Null
                                },
                        ),
                    ),
                    None => JsonModel::Null,
                },
            ),
        ),
    )
}

/// Some files and directories as JSON.
pub open spec fn nodes_json_model(nodes: Seq<FileModel>) -> JsonModel {
    JsonModel::Array(nodes.map_values(|node: FileModel| node_json_model(node)))
}

/// Writes a file or directory as JSON.
fn node_json(node: &ApiFileNode) -> (r: Json)
    ensures
        r@ == node_json_model(file_model(*node)),
    decreases node,
{
    proof {
        lemma_children(*node);
    }
    let size = match node.size {
        Some(size) => Json::UInt(size),
        None => Json::Null,
    };
    let children = match &node.children {
        Some(children) => {
            let mut items: Vec<Json> = Vec::new();
            let mut i: usize = 0;
            while i < children.len()
                invariant
                    i <= children@.len(),
                    node.children == Some(*children),
                    items@.len() == i,
                    forall|j: int|
                        0 <= j < i ==> (#[trigger] items@[j])@ == node_json_model(
                            file_model(children@[j]),
                        ),
                decreases children@.len() - i,
            {
                let child = &children[i];
                assert(decreases_to!(*children => children[i as int]));
                assert(decreases_to!(*node => node.children->0));
                items.push(node_json(child));
                i = i + 1;
            }
            proof {
                let model = file_model(*node);
                assert(model.children == Some(file_models(children@)));
                let written = node_json_model(model)->Object_0[4].1;
                assert(written->Array_0 =~= json::items_model(items@));
            }
            json::array(items)
        },
        None => Json::Null,
    };
    Fields::new().and("name", Json::text(node.name.as_str())).and(
        "path",
        Json::text(node.path.as_str()),
    ).and("isDir", Json::Bool(node.is_dir)).and("size", size).and("children", children).object()
}

/// Writes some files and directories as JSON.
pub fn nodes_json(nodes: &Vec<ApiFileNode>) -> (r: Json)
    ensures
        r@ == nodes_json_model(file_models(nodes@)),
{
    let mut items: Vec<Json> = Vec::new();
    let mut i: usize = 0;
    while i < nodes.len()
        invariant
            i <= nodes@.len(),
            items@.len() == i,
            forall|j: int|
                0 <= j < i ==> (#[trigger] items@[j])@ == node_json_model(file_model(nodes@[j])),
        decreases nodes@.len() - i,
    {
        items.push(node_json(&nodes[i]));
        i = i + 1;
    }
    assert(json::items_model(items@) =~= file_models(nodes@).map_values(
        |node: FileModel| node_json_model(node),
    ));
    json::array(items)
}

/// A file system: what each path is, and what each directory holds.
pub ghost struct Disk {
    pub metadata: spec_fn(Seq<u8>) -> Result<EntryKind, Seq<char>>,
    pub directory: spec_fn(Seq<u8>) -> Result<Seq<Result<Seq<u8>, Seq<char>>>, Seq<char>>,
}

/// How many more entries may be counted.
pub open spec fn room(settings: Settings, count: nat) -> nat {
    if count < settings.max_files {
        (settings.max_files - count) as nat
    } else {
        0
    }
}

/// The later of two counts.
pub open spec fn later(a: nat, b: nat) -> nat {
    if a < b {
        b
    } else {
        a
    }
}

/// The nodes of some entries with the count behind them, or why they cannot be listed.
pub open spec fn listed(
    disk: Disk,
    settings: Settings,
    entries: Seq<Result<Seq<u8>, Seq<char>>>,
    count: nat,
) -> Result<(Seq<FileModel>, nat), Seq<char>>
    decreases room(settings, count), 0int, entries.len(),
{
    if entries.len() == 0 {
        Ok((Seq::empty(), count))
    } else {
        match entries[0] {
            Err(message) => Err("Failed to read directory entry: "@ + message),
            Ok(path) => {
                let rest = entries.drop_first();
                let name = entry_name(path);
                let shown = paths::shown_path(settings.project_path, path);
                if is_hidden(name) {
                    listed(disk, settings, rest, count)
                } else {
                    match (disk.metadata)(path) {
                        Err(message) => Err("Failed to read metadata: "@ + message),
                        Ok(EntryKind::Symlink) => listed(disk, settings, rest, count),
                        Ok(kind) => if count >= settings.max_files {
                            Err(over_limit(settings.max_files))
                        } else {
                            match kind {
                                EntryKind::File(size) => behind(
                                    FileModel {
                                        name,
                                        path: shown,
                                        is_dir: false,
                                        size: Some(size),
                                        children: None,
                                    },
                                    listed(disk, settings, rest, count + 1),
                                ),
                                _ => if !settings.recursive {
                                    behind(
                                        directory_node((name, shown), None),
                                        listed(disk, settings, rest, count + 1),
                                    )
                                } else {
                                    match listed_directory(disk, settings, path, count + 1) {
                                        Err(message) => Err(message),
                                        Ok((children, n)) => behind(
                                            directory_node((name, shown), Some(children)),
                                            listed(disk, settings, rest, later(count + 1, n)),
                                        ),
                                    }
                                },
                            }
                        },
                    }
                }
            },
        }
    }
}

/// The nodes of a directory with the count behind them, or why it cannot be listed.
pub open spec fn listed_directory(disk: Disk, settings: Settings, path: Seq<u8>, count: nat) -> Result<
    (Seq<FileModel>, nat),
    Seq<char>,
>
    decreases room(settings, count), 1int, 0nat,
{
    match (disk.directory)(path) {
        Err(message) => Err("Failed to list directory: "@ + message),
        Ok(entries) => match listed(disk, settings, entries, count) {
            Err(message) => Err(message),
            Ok((nodes, n)) => Ok((order::ranked(nodes), n)),
        },
    }
}

/// A node with the nodes that follow it.
pub open spec fn behind(node: FileModel, rest: Result<(Seq<FileModel>, nat), Seq<char>>) -> Result<
    (Seq<FileModel>, nat),
    Seq<char>,
> {
    match rest {
        Err(message) => Err(message),
        Ok((nodes, n)) => Ok((seq![node] + nodes, n)),
    }
}

proof fn lemma_listed_bounds(
    disk: Disk,
    settings: Settings,
    entries: Seq<Result<Seq<u8>, Seq<char>>>,
    count: nat,
)
    ensures
        listed(disk, settings, entries, count) matches Ok((nodes, n)) ==> {
            &&& count + nodes.len() <= n
            &&& n <= later(count, settings.max_files)
            &&& forall|i: int| 0 <= i < nodes.len() ==> !is_hidden((#[trigger] nodes[i]).name)
        },
    decreases room(settings, count), 0int, entries.len(),
{
    if entries.len() > 0 {
        match entries[0] {
            Err(_) => {},
            Ok(path) => {
                let rest = entries.drop_first();
                if is_hidden(entry_name(path)) {
                    lemma_listed_bounds(disk, settings, rest, count);
                } else {
                    match (disk.metadata)(path) {
                        Err(_) => {},
                        Ok(EntryKind::Symlink) => {
                            lemma_listed_bounds(disk, settings, rest, count);
                        },
                        Ok(kind) => {
                            if count < settings.max_files {
                                lemma_listed_bounds(disk, settings, rest, count + 1);
                                if kind == EntryKind::Directory && settings.recursive {
                                    lemma_directory_bounds(disk, settings, path, count + 1);
                                    match listed_directory(disk, settings, path, count + 1) {
                                        Ok((_, n)) => {
                                            lemma_listed_bounds(
                                                disk,
                                                settings,
                                                rest,
                                                later(count + 1, n),
                                            );
                                        },
                                        Err(_) => {},
                                    }
                                }
                            }
                        },
                    }
                }
            },
        }
    }
}

proof fn lemma_directory_bounds(disk: Disk, settings: Settings, path: Seq<u8>, count: nat)
    ensures
        listed_directory(disk, settings, path, count) matches Ok((nodes, n)) ==> count
            + nodes.len() <= n <= later(count, settings.max_files),
    decreases room(settings, count), 1int, 0nat,
{
    match (disk.directory)(path) {
        Err(_) => {},
        Ok(entries) => {
            lemma_listed_bounds(disk, settings, entries, count);
            match listed(disk, settings, entries, count) {
                Ok((nodes, _)) => {
                    order::ranked_keeps_items(nodes);
                },
                Err(_) => {},
            }
        },
    }
}

/// No listing holds more entries than its limit, and none holds a hidden one; the entries of a
/// directory come with the directories first, each kind by name.
pub proof fn listing_is_bounded(disk: Disk, settings: Settings, path: Seq<u8>)
    ensures
        listed_directory(disk, settings, path, 0) matches Ok((nodes, n)) ==> {
            &&& nodes.len() <= n <= settings.max_files
            &&& order::in_rank_order(nodes)
            &&& forall|i: int| 0 <= i < nodes.len() ==> !is_hidden((#[trigger] nodes[i]).name)
        },
{
    match (disk.directory)(path) {
        Err(_) => {},
        Ok(entries) => {
            lemma_listed_bounds(disk, settings, entries, 0);
            match listed(disk, settings, entries, 0) {
                Ok((nodes, n)) => {
                    broadcast use vstd::seq_lib::group_to_multiset_ensures;

                    order::ranks_agree(nodes);
                    order::ranked_is_in_order(nodes);
                    order::ranked_keeps_items(nodes);
                    let sorted = order::ranked(nodes);
                    assert forall|i: int| 0 <= i < sorted.len() implies !is_hidden(
                        (#[trigger] sorted[i]).name,
                    ) by {
                        assert(sorted.contains(sorted[i]));
                        assert(sorted.to_multiset().count(sorted[i]) > 0);
                        assert(nodes.contains(sorted[i]));
                        let k = nodes.index_of(sorted[i]);
                        assert(!is_hidden(nodes[k].name));
                    }
                },
                Err(_) => {},
            }
        },
    }
}

/// The step that follows when the file system answers.
pub open spec fn answered(disk: Disk, m: ListModel) -> ListModel {
    match m {
        ListModel::Metadata { settings, stack, count, path, name } => after_metadata(
            settings,
            stack,
            count,
            path,
            name,
            (disk.metadata)(path),
        ),
        ListModel::Directory { settings, stack, count, path, over } => after_directory(
            settings,
            stack,
            count,
            over,
            (disk.directory)(path),
        ),
        ListModel::Done(_) => m,
    }
}

/// How many more entries may be counted in a state.
pub open spec fn room_left(m: ListModel) -> nat {
    match m {
        ListModel::Metadata { settings, stack, count, path, name } => room(settings, count) + 1,
        ListModel::Directory { settings, stack, count, path, over } => room(settings, count) + 1,
        ListModel::Done(_) => 0,
    }
}

/// How much of the directories is left to look at in a state.
pub open spec fn weight_left(m: ListModel) -> nat {
    match m {
        ListModel::Metadata { settings, stack, count, path, name } => weight(stack),
        _ => 0,
    }
}

proof fn lemma_settle(settings: Settings, stack: Seq<FrameModel>, count: nat)
    ensures
        match settle(settings, stack, count) {
            ListModel::Metadata { settings: s, stack: rest, count: n, path, name } => s == settings
                && n == count && weight(rest) < weight(stack) && rest.len() > 0,
            ListModel::Directory { .. } => false,
            ListModel::Done(_) => true,
        },
    decreases weight(stack),
{
    if stack.len() > 0 {
        let top = stack.last();
        let below = stack.drop_last();
        if top.entries.len() == 0 {
            match top.over {
                Some(over) => {
                    if below.len() > 0 {
                        let node = directory_node(over, Some(finished(top)));
                        lemma_weight_push(below.drop_last(), with_node(below, node).last());
                        assert(weight(below) == weight(below.drop_last())
                            + below.last().entries.len() + 1);
                        lemma_settle(settings, with_node(below, node), count);
                    }
                },
                None => {},
            }
        } else {
            match top.entries[0] {
                Err(_) => {},
                Ok(path) => {
                    let rest = FrameModel { entries: top.entries.drop_first(), ..top };
                    lemma_weight_push(below, rest);
                    if is_hidden(entry_name(path)) {
                        lemma_settle(settings, below.push(rest), count);
                    }
                },
            }
        }
    }
}

/// What a listing comes to when it is run against a file system.
pub open spec fn outcome(disk: Disk, m: ListModel) -> Result<Seq<FileModel>, Seq<char>>
    decreases
            room_left(m),
            if m is Directory {
                1int
            } else {
                0int
            },
            weight_left(m),
    via outcome_decreases
{
    match m {
        ListModel::Done(done) => done,
        _ => outcome(disk, answered(disk, m)),
    }
}

#[via_fn]
proof fn outcome_decreases(disk: Disk, m: ListModel) {
    match m {
        ListModel::Metadata { settings, stack, count, path, name } => {
            let shown = paths::shown_path(settings.project_path, path);
            lemma_settle(settings, stack, count);
            match (disk.metadata)(path) {
                Ok(EntryKind::File(size)) => {
                    let node = FileModel {
                        name,
                        path: shown,
                        is_dir: false,
                        size: Some(size),
                        children: None,
                    };
                    lemma_settle(settings, with_node(stack, node), count + 1);
                },
                Ok(EntryKind::Directory) => {
                    let node = directory_node((name, shown), None);
                    lemma_settle(settings, with_node(stack, node), count + 1);
                },
                _ => {},
            }
        },
        ListModel::Directory { settings, stack, count, path, over } => {
            match (disk.directory)(path) {
                Ok(entries) => {
                    let frame = FrameModel { entries, out: Seq::empty(), sorted: true, over };
                    lemma_settle(settings, stack.push(frame), count);
                },
                Err(_) => {},
            }
        },
        ListModel::Done(_) => {},
    }
}

/// What a listing comes to once the nodes of the innermost directory are known.
spec fn resumed(
    disk: Disk,
    settings: Settings,
    below: Seq<FrameModel>,
    frame: FrameModel,
    nodes: Result<(Seq<FileModel>, nat), Seq<char>>,
) -> Result<Seq<FileModel>, Seq<char>> {
    match nodes {
        Err(message) => Err(message),
        Ok((nodes, n)) => outcome(
            disk,
            settle(
                settings,
                below.push(FrameModel { entries: Seq::empty(), out: frame.out + nodes, ..frame }),
                n,
            ),
        ),
    }
}

proof fn lemma_directory_outcome(
    disk: Disk,
    settings: Settings,
    below: Seq<FrameModel>,
    over: (Seq<char>, Seq<char>),
    path: Seq<u8>,
    count: nat,
)
    requires
        below.len() > 0,
    ensures
        outcome(
            disk,
            ListModel::Directory { settings, stack: below, count, path, over: Some(over) },
        ) == (match listed_directory(disk, settings, path, count) {
            Err(message) => Err(message),
            Ok((children, n)) => outcome(
                disk,
                settle(settings, with_node(below, directory_node(over, Some(children))), n),
            ),
        }),
    decreases room(settings, count), 1int, 0nat,
{
    let m = ListModel::Directory { settings, stack: below, count, path, over: Some(over) };
    assert(outcome(disk, m) == outcome(disk, answered(disk, m)));
    match (disk.directory)(path) {
        Err(_) => {},
        Ok(entries) => {
            let frame = FrameModel { entries, out: Seq::empty(), sorted: true, over: Some(over) };
            lemma_listed_outcome(disk, settings, below, frame, count);
            match listed(disk, settings, entries, count) {
                Err(_) => {},
                Ok((nodes, n)) => {
                    let done = FrameModel {
                        entries: Seq::empty(),
                        out: frame.out + nodes,
                        ..frame
                    };
                    assert(frame.out + nodes =~= nodes);
                    assert(below.push(done).drop_last() =~= below);
                    assert(below.push(done).last() == done);
                },
            }
        },
    }
}

proof fn lemma_listed_outcome(
    disk: Disk,
    settings: Settings,
    below: Seq<FrameModel>,
    frame: FrameModel,
    count: nat,
)
    ensures
        outcome(disk, settle(settings, below.push(frame), count)) == resumed(
            disk,
            settings,
            below,
            frame,
            listed(disk, settings, frame.entries, count),
        ),
    decreases room(settings, count), 0int, frame.entries.len(),
{
    let stack = below.push(frame);
    assert(stack.last() == frame);
    assert(stack.drop_last() =~= below);
    if frame.entries.len() == 0 {
        assert(frame.out + Seq::empty() =~= frame.out);
        assert(frame.entries =~= Seq::empty());
        assert(FrameModel { entries: Seq::empty(), out: frame.out + Seq::empty(), ..frame }
            == frame);
    } else {
        match frame.entries[0] {
            Err(_) => {},
            Ok(path) => {
                let name = entry_name(path);
                let shown = paths::shown_path(settings.project_path, path);
                let rest = FrameModel { entries: frame.entries.drop_first(), ..frame };
                let left = below.push(rest);
                assert(left.last() == rest);
                assert(left.drop_last() =~= below);
                if is_hidden(name) {
                    lemma_listed_outcome(disk, settings, below, rest, count);
                } else {
                    let m = ListModel::Metadata { settings, stack: left, count, path, name };
                    assert(settle(settings, stack, count) == m);
                    assert(outcome(disk, m) == outcome(disk, answered(disk, m)));
                    match (disk.metadata)(path) {
                        Err(_) => {},
                        Ok(EntryKind::Symlink) => {
                            lemma_listed_outcome(disk, settings, below, rest, count);
                        },
                        Ok(EntryKind::File(size)) => {
                            if count < settings.max_files {
                                let node = FileModel {
                                    name,
                                    path: shown,
                                    is_dir: false,
                                    size: Some(size),
                                    children: None,
                                };
                                lemma_node_outcome(disk, settings, below, frame, node, count + 1);
                            }
                        },
                        Ok(EntryKind::Directory) => {
                            if count < settings.max_files {
                                if !settings.recursive {
                                    let node = directory_node((name, shown), None);
                                    lemma_node_outcome(
                                        disk,
                                        settings,
                                        below,
                                        frame,
                                        node,
                                        count + 1,
                                    );
                                } else {
                                    lemma_directory_outcome(
                                        disk,
                                        settings,
                                        left,
                                        (name, shown),
                                        path,
                                        count + 1,
                                    );
                                    lemma_directory_bounds(disk, settings, path, count + 1);
                                    match listed_directory(disk, settings, path, count + 1) {
                                        Err(_) => {},
                                        Ok((children, n)) => {
                                            let node = directory_node(
                                                (name, shown),
                                                Some(children),
                                            );
                                            lemma_node_outcome(
                                                disk,
                                                settings,
                                                below,
                                                frame,
                                                node,
                                                n,
                                            );
                                        },
                                    }
                                }
                            }
                        },
                    }
                }
            },
        }
    }
}

proof fn lemma_node_outcome(
    disk: Disk,
    settings: Settings,
    below: Seq<FrameModel>,
    frame: FrameModel,
    node: FileModel,
    count: nat,
)
    requires
        frame.entries.len() > 0,
    ensures
        outcome(
            disk,
            settle(
                settings,
                with_node(
                    below.push(FrameModel { entries: frame.entries.drop_first(), ..frame }),
                    node,
                ),
                count,
            ),
        ) == resumed(
            disk,
            settings,
            below,
            frame,
            behind(node, listed(disk, settings, frame.entries.drop_first(), count)),
        ),
    decreases room(settings, count), 0int, frame.entries.len(),
{
    let rest = FrameModel { entries: frame.entries.drop_first(), ..frame };
    let more = FrameModel { out: frame.out.push(node), ..rest };
    assert(with_node(below.push(rest), node) =~= below.push(more));
    lemma_listed_outcome(disk, settings, below, more, count);
    match listed(disk, settings, rest.entries, count) {
        Err(_) => {},
        Ok((nodes, _)) => {
            assert(frame.out.push(node) + nodes =~= frame.out + (seq![node] + nodes));
        },
    }
}

/// Run against any file system, the listing of a directory ends, and comes to what
/// [`listed_directory`] says.
pub proof fn tree_is_listed(disk: Disk, settings: Settings, path: Seq<u8>)
    ensures
        outcome(disk, begin_tree(settings, path)) == (match listed_directory(
            disk,
            settings,
            path,
            0,
        ) {
            Err(message) => Err(message),
            Ok((nodes, _)) => Ok(nodes),
        }),
{
    let none: Seq<FrameModel> = Seq::empty();
    let m = begin_tree(settings, path);
    assert(outcome(disk, m) == outcome(disk, answered(disk, m)));
    match (disk.directory)(path) {
        Err(_) => {},
        Ok(entries) => {
            let frame = FrameModel { entries, out: Seq::empty(), sorted: true, over: None };
            lemma_listed_outcome(disk, settings, none, frame, 0);
            lemma_last_frame(disk, settings, frame, listed(disk, settings, entries, 0));
        },
    }
}

proof fn lemma_last_frame(
    disk: Disk,
    settings: Settings,
    frame: FrameModel,
    nodes: Result<(Seq<FileModel>, nat), Seq<char>>,
)
    requires
        frame.over is None,
        frame.out == Seq::<FileModel>::empty(),
    ensures
        resumed(disk, settings, Seq::empty(), frame, nodes) == (match nodes {
            Err(message) => Err(message),
            Ok((nodes, _)) => Ok(
                if frame.sorted {
                    order::ranked(nodes)
                } else {
                    nodes
                },
            ),
        }),
{
    match nodes {
        Err(_) => {},
        Ok((nodes, _)) => {
            let none: Seq<FrameModel> = Seq::empty();
            let done = FrameModel { entries: Seq::empty(), out: frame.out + nodes, ..frame };
            assert(frame.out + nodes =~= nodes);
            assert(none.push(done).last() == done);
        },
    }
}

/// Run against any file system, the listing of some files and directories ends, and comes to
/// what [`listed`] says.
pub proof fn roots_are_listed(
    disk: Disk,
    settings: Settings,
    roots: Seq<Result<Seq<u8>, Seq<char>>>,
)
    ensures
        outcome(disk, begin_roots(settings, roots)) == (match listed(disk, settings, roots, 0) {
            Err(message) => Err(message),
            Ok((nodes, _)) => Ok(nodes),
        }),
{
    let frame = FrameModel { entries: roots, out: Seq::empty(), sorted: false, over: None };
    lemma_listed_outcome(disk, settings, Seq::empty(), frame, 0);
    lemma_last_frame(disk, settings, frame, listed(disk, settings, roots, 0));
}

/// Whether an entry of a directory is listed: it can be read, its name does not begin with a dot,
/// and it is no symbolic link.
pub open spec fn is_listed(disk: Disk) -> spec_fn(Result<Seq<u8>, Seq<char>>) -> bool {
    |entry: Result<Seq<u8>, Seq<char>>|
        entry matches Ok(path) && !(entry_name(path).len() > 0 && entry_name(path)[0] == '.')
            && (disk.metadata)(path) != Ok::<EntryKind, Seq<char>>(EntryKind::Symlink)
}

/// Whether a node stands for an entry: it has the entry's name and the path below the project; a
/// file has its size, and a directory that is looked into has the listing of what it holds.
pub open spec fn stands_for(
    disk: Disk,
    settings: Settings,
    node: FileModel,
    entry: Result<Seq<u8>, Seq<char>>,
) -> bool {
    &&& entry matches Ok(path)
    &&& node.name == entry_name(path)
    &&& node.path == paths::shown_path(settings.project_path, path)
    &&& match (disk.metadata)(path) {
        Ok(EntryKind::File(size)) => !node.is_dir && node.size == Some(size)
            && node.children is None,
        Ok(EntryKind::Directory) => {
            &&& node.is_dir
            &&& node.size is None
            &&& !settings.recursive ==> node.children is None
            &&& settings.recursive ==> node.children is Some && exists|count: nat|
                #[trigger] listed_directory(disk, settings, path, count) matches Ok(inner)
                    && inner.0 == node.children->0
        },
        _ => false,
    }
}

/// Every entry of a directory that is to be listed has its node, in the order of the entries, and
/// nothing else has one.
pub proof fn entries_are_listed(
    disk: Disk,
    settings: Settings,
    entries: Seq<Result<Seq<u8>, Seq<char>>>,
    count: nat,
)
    ensures
        listed(disk, settings, entries, count) matches Ok((nodes, n)) ==> {
            let shown = entries.filter(is_listed(disk));
            &&& nodes.len() == shown.len()
            &&& forall|i: int|
                0 <= i < nodes.len() ==> stands_for(
                    disk,
                    settings,
                    #[trigger] nodes[i],
                    shown[i],
                )
            &&& !settings.recursive ==> n == count + nodes.len()
        },
    decreases room(settings, count), entries.len(),
{
    let keep = is_listed(disk);
    if entries.len() == 0 {
        assert(entries.filter(keep).len() == 0) by {
            reveal(Seq::filter);
        }
    } else {
        let rest = entries.drop_first();
        lemma_filter_front(entries, keep);
        match entries[0] {
            Err(_) => {},
            Ok(path) => {
                let name = entry_name(path);
                if is_hidden(name) {
                    entries_are_listed(disk, settings, rest, count);
                } else {
                    match (disk.metadata)(path) {
                        Err(_) => {},
                        Ok(EntryKind::Symlink) => {
                            entries_are_listed(disk, settings, rest, count);
                        },
                        Ok(kind) => {
                            if count < settings.max_files {
                                let next = match kind {
                                    EntryKind::File(_) => count + 1,
                                    _ => if !settings.recursive {
                                        count + 1
                                    } else {
                                        match listed_directory(disk, settings, path, count + 1) {
                                            Err(_) => count + 1,
                                            Ok((_, n)) => later(count + 1, n),
                                        }
                                    },
                                };
                                entries_are_listed(disk, settings, rest, next);
                                lemma_first_node(disk, settings, entries, count, next);
                            }
                        },
                    }
                }
            },
        }
    }
}

proof fn lemma_first_node(
    disk: Disk,
    settings: Settings,
    entries: Seq<Result<Seq<u8>, Seq<char>>>,
    count: nat,
    next: nat,
)
    requires
        entries.len() > 0,
        is_listed(disk)(entries[0]),
        entries[0] is Ok,
        (disk.metadata)(entries[0]->Ok_0) is Ok,
        count < settings.max_files,
        next == (match (disk.metadata)(entries[0]->Ok_0)->Ok_0 {
            EntryKind::File(_) => count + 1,
            _ => if !settings.recursive {
                count + 1
            } else {
                match listed_directory(disk, settings, entries[0]->Ok_0, count + 1) {
                    Err(_) => count + 1,
                    Ok((_, n)) => later(count + 1, n),
                }
            },
        }),
        entries.filter(is_listed(disk)) == seq![entries[0]] + entries.drop_first().filter(
            is_listed(disk),
        ),
        listed(disk, settings, entries.drop_first(), next) matches Ok((nodes, n)) ==> {
            let shown = entries.drop_first().filter(is_listed(disk));
            &&& nodes.len() == shown.len()
            &&& forall|i: int|
                0 <= i < nodes.len() ==> stands_for(
                    disk,
                    settings,
                    #[trigger] nodes[i],
                    shown[i],
                )
            &&& !settings.recursive ==> n == next + nodes.len()
        },
    ensures
        listed(disk, settings, entries, count) matches Ok((nodes, n)) ==> {
            let shown = entries.filter(is_listed(disk));
            &&& nodes.len() == shown.len()
            &&& forall|i: int|
                0 <= i < nodes.len() ==> stands_for(
                    disk,
                    settings,
                    #[trigger] nodes[i],
                    shown[i],
                )
            &&& !settings.recursive ==> n == count + nodes.len()
        },
{
    let rest = entries.drop_first();
    let keep = is_listed(disk);
    if listed(disk, settings, entries, count) is Ok {
        let (nodes, n) = listed(disk, settings, entries, count)->Ok_0;
        let (more, m) = listed(disk, settings, rest, next)->Ok_0;
        let shown = entries.filter(keep);
        assert(nodes == seq![nodes[0]] + more);
        assert(stands_for(disk, settings, nodes[0], entries[0]));
        assert forall|i: int| 0 <= i < nodes.len() implies stands_for(
            disk,
            settings,
            #[trigger] nodes[i],
            shown[i],
        ) by {
            if i > 0 {
                assert(nodes[i] == more[i - 1]);
                assert(shown[i] == rest.filter(keep)[i - 1]);
            }
        }
    }
}

proof fn lemma_filter_front<T>(s: Seq<T>, keep: spec_fn(T) -> bool)
    requires
        s.len() > 0,
    ensures
        s.filter(keep) == (if keep(s[0]) {
            seq![s[0]] + s.drop_first().filter(keep)
        } else {
            s.drop_first().filter(keep)
        }),
    decreases s.len(),
{
    reveal(Seq::filter);
    if s.len() == 1 {
        assert(s.drop_last() =~= Seq::empty());
        assert(s.drop_first() =~= Seq::empty());
        assert(s.drop_last().filter(keep) =~= Seq::empty());
        assert(s.filter(keep) =~= (if keep(s[0]) {
            seq![s[0]] + s.drop_first().filter(keep)
        } else {
            s.drop_first().filter(keep)
        }));
    } else {
        let front = s.drop_last();
        lemma_filter_front(front, keep);
        assert(front.drop_first() =~= s.drop_first().drop_last());
        assert(s.drop_first().last() == s.last());
        assert(front[0] == s[0]);
        assert(s.filter(keep) =~= (if keep(s[0]) {
            seq![s[0]] + s.drop_first().filter(keep)
        } else {
            s.drop_first().filter(keep)
        }));
    }
}

/// The nodes of a directory are those of its entries, with the directories first and each kind by
/// name.
pub proof fn directories_come_first(disk: Disk, settings: Settings, path: Seq<u8>, count: nat)
    ensures
        listed_directory(disk, settings, path, count) matches Ok((nodes, n)) ==> {
            &&& (disk.directory)(path) is Ok
            &&& listed(disk, settings, (disk.directory)(path)->Ok_0, count) matches Ok((found, m))
                && found.to_multiset() == nodes.to_multiset() && m == n
            &&& forall|i: int, j: int|
                0 <= i < j < nodes.len() ==> {
                    &&& (#[trigger] nodes[j]).is_dir ==> (#[trigger] nodes[i]).is_dir
                    &&& nodes[i].is_dir == nodes[j].is_dir ==> !order::text_before(
                        nodes[j].name,
                        nodes[i].name,
                    )
                }
        },
{
    if listed_directory(disk, settings, path, count) is Ok {
        let found = listed(disk, settings, (disk.directory)(path)->Ok_0, count)->Ok_0.0;
        order::ranks_agree(found);
        order::ranked_is_in_order(found);
        order::ranked_keeps_items(found);
        let nodes = order::ranked(found);
        assert forall|i: int, j: int| 0 <= i < j < nodes.len() implies {
            &&& (#[trigger] nodes[j]).is_dir ==> (#[trigger] nodes[i]).is_dir
            &&& nodes[i].is_dir == nodes[j].is_dir ==> !order::text_before(
                nodes[j].name,
                nodes[i].name,
            )
        } by {
            assert(!order::ahead(nodes[j], nodes[i]));
        }
    }
}

/// An entry goes by the name behind the last separator of its path, and is hidden if that begins
/// with a dot.
pub proof fn entries_have_names(path: Seq<u8>, name: Seq<char>)
    ensures
        paths::byte_file_name(path) == Some(name) ==> entry_name(path) == name,
        paths::byte_file_name(path) is None ==> entry_name(path).len() == 0,
        is_hidden(seq!['.'] + name),
        name.len() > 0 && name[0] != '.' ==> !is_hidden(name),
        !is_hidden(Seq::empty()),
{
}

/// A listing that holds too much is refused with a message that names the limit.
pub proof fn limit_is_named(max_files: nat)
    ensures
        over_limit(max_files) == "File listing exceeds maxFiles limit ("@ + text::decimal(max_files)
            + ")"@,
{
}

/// Of the public files and directories of a project, `purpose.md`, `schema.md`, `wiki` and
/// `raw/sources`, those that are there are listed, in this order.
pub proof fn public_files_are_listed(project_path: Seq<char>, present: Seq<bool>)
    requires
        present.len() == 4,
    ensures
        public_names() == seq!["purpose.md"@, "schema.md"@, "wiki"@, "raw/sources"@],
        ({
            let at = |name: Seq<char>| encode_utf8(paths::join(project_path, name));
            let one = |name: Seq<char>, there: bool|
                if there {
                    seq![Ok::<Seq<u8>, Seq<char>>(at(name))]
                } else {
                    Seq::empty()
                };
            public_roots(project_path, public_names(), present) == one(
                "purpose.md"@,
                present[0],
            ) + one("schema.md"@, present[1]) + one("wiki"@, present[2]) + one(
                "raw/sources"@,
                present[3],
            )
        }),
{
    let names = public_names();
    assert(names =~= seq!["purpose.md"@, "schema.md"@, "wiki"@, "raw/sources"@]);
    let three = seq!["purpose.md"@, "schema.md"@, "wiki"@];
    let two = seq!["purpose.md"@, "schema.md"@];
    let first = seq!["purpose.md"@];
    assert(names.drop_last() =~= three);
    assert(three.drop_last() =~= two);
    assert(two.drop_last() =~= first);
    assert(first.drop_last() =~= Seq::empty());
    let at = |name: Seq<char>| encode_utf8(paths::join(project_path, name));
    let one = |name: Seq<char>, there: bool|
        if there {
            seq![Ok::<Seq<u8>, Seq<char>>(at(name))]
        } else {
            Seq::empty()
        };
    assert(public_roots(project_path, first.drop_last(), present) =~= Seq::empty());
    assert(public_roots(project_path, first, present) =~= one("purpose.md"@, present[0]));
    assert(public_roots(project_path, two, present) =~= one("purpose.md"@, present[0]) + one(
        "schema.md"@,
        present[1],
    ));
    assert(public_roots(project_path, three, present) =~= one("purpose.md"@, present[0]) + one(
        "schema.md"@,
        present[1],
    ) + one("wiki"@, present[2]));
    assert(public_roots(project_path, names, present) =~= one("purpose.md"@, present[0]) + one(
        "schema.md"@,
        present[1],
    ) + one("wiki"@, present[2]) + one("raw/sources"@, present[3]));
}

/// A file or directory is written with its name, its path, its kind and its size.
pub proof fn file_is_written(node: FileModel)
    ensures
        ({
            let value = node_json_model(node);
            &&& value.field("name"@) == Some(JsonModel::Text(node.name))
            &&& value.field("path"@) == Some(JsonModel::Text(node.path))
            &&& value.field("isDir"@) == Some(JsonModel::Bool(node.is_dir))
            &&& value.field("size"@) == Some(
                (match node.size {
                Some(size) => JsonModel::UInt(size as nat),
                None => JsonModel::Null,
            }),
            )
        }),
        node_json_model(node)->Object_0.len() == 5,
        node.children is None ==> node_json_model(node).field("children"@) == Some(JsonModel::Null),
        node.children matches Some(children) ==> (node_json_model(node).field(
            "children"@,
        ) matches Some(JsonModel::Array(items)) && items.len() == children.len() && forall|i: int|
            0 <= i < children.len() ==> #[trigger] items[i] == node_json_model(children[i])),
{
    reveal_strlit("name");
    reveal_strlit("path");
    reveal_strlit("isDir");
    reveal_strlit("size");
    assert("name"@.len() == 4 && "path"@.len() == 4 && "isDir"@.len() == 5);
    assert("size"@.len() == 4 && "name"@[0] == 'n' && "path"@[0] == 'p');
    assert("size"@[0] == 's');
    reveal_strlit("children");
    assert("children"@.len() == 8);
    let fields = (node_json_model(node))->Object_0;
    assert(fields[4].0 == "children"@);
    assert(fields[0] == ("name"@, JsonModel::Text(node.name)));
    assert(fields[1] == ("path"@, JsonModel::Text(node.path)));
    assert(fields[2] == ("isDir"@, JsonModel::Bool(node.is_dir)));
    assert(fields[3] == (
        "size"@,
        (match node.size {
                Some(size) => JsonModel::UInt(size as nat),
                None => JsonModel::Null,
            }),
    ));
    json::each_field_is_read(fields);
}

/// The entries of a listing are written in their order.
pub proof fn files_are_written(nodes: Seq<FileModel>, i: int)
    requires
        0 <= i < nodes.len(),
    ensures
        nodes_json_model(nodes) is Array,
        nodes_json_model(nodes)->Array_0.len() == nodes.len(),
        nodes_json_model(nodes)->Array_0[i] == node_json_model(nodes[i]),
{
}

/// A listing needs every entry read: it is refused where an entry cannot be read, or where the file
/// system does not say what one is whose name is not hidden, and told why.
pub proof fn unreadable_entries_refuse(
    disk: Disk,
    settings: Settings,
    entries: Seq<Result<Seq<u8>, Seq<char>>>,
    count: nat,
    k: int,
)
    requires
        0 <= k < entries.len(),
    ensures
        listed(disk, settings, entries, count) is Ok ==> (entries[k] matches Ok(path) && (is_hidden(
            entry_name(path),
        ) || (disk.metadata)(path) is Ok)),
        k == 0 ==> (entries[0] matches Err(message) ==> listed(disk, settings, entries, count)
            == Err::<(Seq<FileModel>, nat), Seq<char>>(
            "Failed to read directory entry: "@ + message,
        )),
        k == 0 ==> (entries[0] matches Ok(path) ==> (!is_hidden(entry_name(path)) ==> ((
        disk.metadata)(path) matches Err(message) ==> listed(disk, settings, entries, count)
            == Err::<(Seq<FileModel>, nat), Seq<char>>("Failed to read metadata: "@ + message)))),
    decreases k, room(settings, count), entries.len(),
{
    if k > 0 && listed(disk, settings, entries, count) is Ok {
        let rest = entries.drop_first();
        assert(rest[k - 1] == entries[k]);
        let path = entries[0]->Ok_0;
        if is_hidden(entry_name(path)) || (disk.metadata)(path) == Ok::<EntryKind, Seq<char>>(
            EntryKind::Symlink,
        ) {
            unreadable_entries_refuse(disk, settings, rest, count, k - 1);
        } else {
            let next = match (disk.metadata)(path)->Ok_0 {
                EntryKind::File(_) => count + 1,
                _ => if !settings.recursive {
                    count + 1
                } else {
                    later(count + 1, listed_directory(disk, settings, path, count + 1)->Ok_0.1)
                },
            };
            assert(listed(disk, settings, rest, next) is Ok);
            unreadable_entries_refuse(disk, settings, rest, next, k - 1);
        }
    }
}

/// A directory that cannot be read refuses the listing, and is told why.
pub proof fn unreadable_directory_refuses(
    disk: Disk,
    settings: Settings,
    path: Seq<u8>,
    count: nat,
    message: Seq<char>,
)
    requires
        (disk.directory)(path) == Err::<Seq<Result<Seq<u8>, Seq<char>>>, Seq<char>>(message),
    ensures
        listed_directory(disk, settings, path, count) == Err::<(Seq<FileModel>, nat), Seq<char>>(
            "Failed to list directory: "@ + message,
        ),
        outcome(disk, begin_tree(settings, path)) == Err::<Seq<FileModel>, Seq<char>>(
            "Failed to list directory: "@ + message,
        ),
{
    tree_is_listed(disk, settings, path);
}

/// A listing that counts some entries is the same under every limit that allows so many, and
/// refused under every limit that does not.
pub proof fn limit_decides_by_count(
    disk: Disk,
    a: Settings,
    b: Settings,
    entries: Seq<Result<Seq<u8>, Seq<char>>>,
    count: nat,
)
    requires
        a.project_path == b.project_path,
        a.recursive == b.recursive,
        listed(disk, a, entries, count) is Ok,
        count <= b.max_files,
    ensures
        ({
            let (nodes, n) = listed(disk, a, entries, count)->Ok_0;
            &&& n <= b.max_files ==> listed(disk, b, entries, count) == Ok::<
                (Seq<FileModel>, nat),
                Seq<char>,
            >((nodes, n))
            &&& n > b.max_files ==> listed(disk, b, entries, count) == Err::<
                (Seq<FileModel>, nat),
                Seq<char>,
            >(over_limit(b.max_files))
        }),
    decreases room(a, count), 0int, entries.len(),
{
    lemma_listed_bounds(disk, a, entries, count);
    if entries.len() > 0 {
        let rest = entries.drop_first();
        let path = entries[0]->Ok_0;
        let name = entry_name(path);
        if is_hidden(name) || (disk.metadata)(path) == Ok::<EntryKind, Seq<char>>(
            EntryKind::Symlink,
        ) {
            limit_decides_by_count(disk, a, b, rest, count);
        } else if count < b.max_files {
            match (disk.metadata)(path)->Ok_0 {
                EntryKind::Directory if a.recursive => {
                    lemma_limit_directory(disk, a, b, path, count + 1);
                    lemma_directory_bounds(disk, a, path, count + 1);
                    let m = listed_directory(disk, a, path, count + 1)->Ok_0.1;
                    lemma_listed_bounds(disk, a, rest, later(count + 1, m));
                    if m <= b.max_files {
                        limit_decides_by_count(disk, a, b, rest, later(count + 1, m));
                    }
                },
                _ => {
                    limit_decides_by_count(disk, a, b, rest, count + 1);
                },
            }
        } else {
            match (disk.metadata)(path)->Ok_0 {
                EntryKind::Directory if a.recursive => {
                    lemma_directory_bounds(disk, a, path, count + 1);
                    let m = listed_directory(disk, a, path, count + 1)->Ok_0.1;
                    lemma_listed_bounds(disk, a, rest, later(count + 1, m));
                },
                _ => {
                    lemma_listed_bounds(disk, a, rest, count + 1);
                },
            }
        }
    }
}

proof fn lemma_limit_directory(disk: Disk, a: Settings, b: Settings, path: Seq<u8>, count: nat)
    requires
        a.project_path == b.project_path,
        a.recursive == b.recursive,
        listed_directory(disk, a, path, count) is Ok,
        count <= b.max_files,
    ensures
        ({
            let (nodes, n) = listed_directory(disk, a, path, count)->Ok_0;
            &&& n <= b.max_files ==> listed_directory(disk, b, path, count) == Ok::<
                (Seq<FileModel>, nat),
                Seq<char>,
            >((nodes, n))
            &&& n > b.max_files ==> listed_directory(disk, b, path, count) == Err::<
                (Seq<FileModel>, nat),
                Seq<char>,
            >(over_limit(b.max_files))
        }),
    decreases room(a, count), 1int, 0nat,
{
    let entries = (disk.directory)(path)->Ok_0;
    limit_decides_by_count(disk, a, b, entries, count);
}

/// A listing is taken for what it holds, at every depth, and answers of the file system for what
/// they say.
pub proof fn listing_is_taken_as_it_is(
    node: ApiFileNode,
    nodes: Seq<ApiFileNode>,
    entries: Seq<Entry>,
    i: int,
)
    ensures
        ({
            let m = file_model(node);
            &&& m.name == node.name@
            &&& m.path == node.path@
            &&& m.is_dir == node.is_dir
            &&& m.size == node.size
            &&& node.children is None ==> m.children is None
            &&& node.children matches Some(children) ==> (m.children matches Some(inner)
                && inner.len() == children@.len() && (0 <= i < children@.len() ==> inner[i]
                == file_model(children@[i])))
        }),
        file_models(nodes).len() == nodes.len(),
        0 <= i < nodes.len() ==> file_models(nodes)[i] == file_model(nodes[i]),
        entry_models(entries).len() == entries.len(),
        0 <= i < entries.len() ==> (match entries[i] {
            Ok(path) => entry_models(entries)[i] == Ok::<Seq<u8>, Seq<char>>(path@),
            Err(message) => entry_models(entries)[i] == Err::<Seq<u8>, Seq<char>>(message@),
        }),
{
}

/// Answers are taken for what they say.
pub proof fn listing_answers_are_kept(
    kind: EntryKind,
    message: String,
    entries: Vec<Entry>,
)
    ensures
        kind_view(Ok(kind)) == Ok::<EntryKind, Seq<char>>(kind),
        kind_view(Err(message)) == Err::<EntryKind, Seq<char>>(message@),
        entries_view(Ok(entries)) == Ok::<Seq<Result<Seq<u8>, Seq<char>>>, Seq<char>>(
            entry_models(entries@),
        ),
        entries_view(Err(message)) == Err::<Seq<Result<Seq<u8>, Seq<char>>>, Seq<char>>(message@),
{
}

} // verus!

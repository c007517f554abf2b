//! The projects that the service knows, and the application state that they are stored in.
use crate::json;
use crate::json::{Fields, Json, JsonModel};
use crate::order;
use crate::order::TextMap;
use crate::paths;
use crate::response;
use crate::response::{OmnimindResponse, ResponseModel};
use crate::startup::Platform;
use crate::text;
use crate::url;
use vstd::prelude::*;
use vstd::string::*;

verus! {

/// A project.
#[derive(Debug)]
pub struct ProjectEntry {
    pub id: String,
    pub name: String,
    pub path: String,
    pub current: bool,
}

/// The mathematical value of a project.
pub ghost struct ProjectModel {
    pub id: Seq<char>,
    pub name: Seq<char>,
    pub path: Seq<char>,
    pub current: bool,
}

impl View for ProjectEntry {
    type V = ProjectModel;

    open spec fn view(&self) -> ProjectModel {
        ProjectModel { id: self.id@, name: self.name@, path: self.path@, current: self.current }
    }
}

/// The values of some projects.
pub open spec fn project_views(projects: Seq<ProjectEntry>) -> Seq<ProjectModel> {
    projects.map_values(|p: ProjectEntry| p@)
}

/// How long the application state is kept before it is read again, in nanoseconds.
pub const APP_STATE_CACHE_TTL: u64 = 5_000_000_000;

/// The application state as it was last read, and when, in nanoseconds of some clock.
#[derive(Debug)]
pub struct CachedAppState {
    pub loaded_at: u64,
    pub value: Option<String>,
}

/// Whether a state that was read at `loaded_at` is still good.
pub open spec fn is_fresh(loaded_at: u64, now: u64) -> bool {
    now < loaded_at + APP_STATE_CACHE_TTL
}

/// The state that is still good, if there is one.
pub open spec fn fresh_state(cache: Option<CachedAppState>, now: u64) -> Option<Option<Seq<char>>> {
    match cache {
        Some(cached) => if is_fresh(cached.loaded_at, now) {
            Some(text::optional_text(cached.value))
        } else {
            None
        },
        None => None,
    }
}

/// Copies an optional text.
fn copied(t: &Option<String>) -> (r: Option<String>)
    ensures
        text::optional_text(r) == text::optional_text(*t),
{
    match t {
        Some(t) => Some(t.clone()),
        None => None,
    }
}

/// Tells the state that is still good, if there is one; otherwise it has to be read.
pub fn cached_app_state(cache: &Option<CachedAppState>, now: u64) -> (r: Option<Option<String>>)
    ensures
        match r {
            Some(value) => fresh_state(*cache, now) == Some(text::optional_text(value)),
            None => fresh_state(*cache, now) is None,
        },
{
    match cache {
        Some(cached) => {
            let fresh = if now < cached.loaded_at {
                true
            } else {
                now - cached.loaded_at < APP_STATE_CACHE_TTL
            };
            if fresh {
                Some(copied(&cached.value))
            } else {
                None
            }
        },
        None => None,
    }
}

/// The state that was read, if it is JSON.
pub open spec fn well_formed(raw: Option<Seq<char>>) -> Option<Seq<char>> {
    match raw {
        Some(raw) if json::parsed(raw) is Some => Some(raw),
        _ => None,
    }
}

/// The state after it was read: what was read, else what was known before.
pub open spec fn kept_state(cache: Option<CachedAppState>, loaded: Option<Seq<char>>) -> Option<
    Seq<char>,
> {
    match loaded {
        Some(loaded) => Some(loaded),
        None => match cache {
            Some(cached) => text::optional_text(cached.value),
            None => None,
        },
    }
}

/// Keeps the state that was read now; where none could be read, what was known before.
pub fn store_state(cache: Option<CachedAppState>, now: u64, loaded: Option<String>) -> (r:
    CachedAppState)
    ensures
        r.loaded_at == now,
        text::optional_text(r.value) == kept_state(cache, text::optional_text(loaded)),
{
    let value = match loaded {
        Some(loaded) => Some(loaded),
        None => match cache {
            Some(cached) => cached.value,
            None => None,
        },
    };
    CachedAppState { loaded_at: now, value }
}

/// Keeps the state that was read now if it is JSON.
pub fn load_app_state(cache: Option<CachedAppState>, now: u64, raw: Option<String>) -> (r:
    CachedAppState)
    ensures
        r.loaded_at == now,
        text::optional_text(r.value) == kept_state(cache, well_formed(text::optional_text(raw))),
{
    let loaded = match raw {
        Some(raw) => if json::parse_value(raw.as_str()).is_some() {
            Some(raw)
        } else {
            None
        },
        None => None,
    };
    store_state(cache, now, loaded)
}

/// A state that was read is used without reading it again until its time is over.
pub proof fn state_is_kept(cached: CachedAppState, now: u64)
    requires
        cached.loaded_at <= now,
    ensures
        now - cached.loaded_at < APP_STATE_CACHE_TTL ==> fresh_state(Some(cached), now) == Some(
            text::optional_text(cached.value),
        ),
        now - cached.loaded_at >= APP_STATE_CACHE_TTL ==> fresh_state(Some(cached), now) is None,
{
}

/// A state that cannot be read, or is not JSON, does not displace the one that is known.
pub proof fn failed_read_keeps_state(cached: CachedAppState, raw: Option<Seq<char>>)
    requires
        raw matches Some(raw) ==> json::parsed(raw) is None,
    ensures
        kept_state(Some(cached), well_formed(raw)) == text::optional_text(cached.value),
{
}

/// The JSON value of the state, if it is one.
pub open spec fn state_model(state: Option<Seq<char>>) -> Option<JsonModel> {
    match state {
        Some(state) => json::parsed(state),
        None => None,
    }
}

/// The projects that the state registers, by their ids.
pub open spec fn registry_of(state: Option<Seq<char>>) -> Seq<(Seq<char>, JsonModel)> {
    match state_model(state) {
        Some(value) => match value.field("projectRegistry"@) {
            Some(JsonModel::Object(fields)) => fields,
            _ => Seq::empty(),
        },
        None => Seq::empty(),
    }
}

/// The embedding settings of the state as JSON text, if there are any.
pub open spec fn embedding_of(state: Option<Seq<char>>) -> Option<Seq<char>> {
    match state_model(state) {
        Some(value) => match value.field("embeddingConfig"@) {
            Some(config) => Some(json::written(config)),
            None => None,
        },
        None => None,
    }
}

/// Tells the embedding settings of the state as JSON text.
pub fn load_embedding_config(state: Option<&str>) -> (r: Option<String>)
    ensures
        text::optional_text(r) == embedding_of(text::optional_view(state)),
{
    let state = match state {
        Some(state) => state,
        None => {
            return None;
        },
    };
    let value = match json::parse_value(state) {
        Some(value) => value,
        None => {
            return None;
        },
    };
    match json::value_field(&value, "embeddingConfig") {
        Some(config) => Some(json::value_written(config)),
        None => None,
    }
}

/// The id in the text of a project's own file, if it holds one.
pub open spec fn stored_id(raw: Option<Seq<char>>) -> Option<Seq<char>> {
    match raw {
        Some(raw) => match json::parsed(raw) {
            Some(value) => json::text_field(value, "id"@),
            None => None,
        },
        None => None,
    }
}

/// Reads the id in the text of a project's own file.
pub fn read_project_id(raw: Option<&str>) -> (r: Option<String>)
    ensures
        text::optional_text(r) == stored_id(text::optional_view(raw)),
{
    let raw = match raw {
        Some(raw) => raw,
        None => {
            return None;
        },
    };
    let value = match json::parse_value(raw) {
        Some(value) => value,
        None => {
            return None;
        },
    };
    match json::value_field(&value, "id") {
        Some(id) => json::value_text(id),
        None => None,
    }
}

/// The project's own file.
pub fn project_id_file(path: &str) -> (r: String)
    ensures
        r@ == paths::join(paths::normal_path(path@), ".llm-wiki/project.json"@),
{
    paths::joined(paths::normalize_path(path).as_str(), ".llm-wiki/project.json")
}

/// An entry of the registry, as far as it is known.
pub struct RegistryEntry {
    pub id: String,
    pub path: Option<String>,
    pub name: Option<String>,
}

/// The mathematical value of an entry of the registry.
pub ghost struct RegistryModel {
    pub id: Seq<char>,
    pub path: Option<Seq<char>>,
    pub name: Option<Seq<char>>,
}

impl View for RegistryEntry {
    type V = RegistryModel;

    open spec fn view(&self) -> RegistryModel {
        RegistryModel {
            id: self.id@,
            path: text::optional_text(self.path),
            name: text::optional_text(self.name),
        }
    }
}

/// The values of some entries of the registry.
pub open spec fn registry_views(entries: Seq<RegistryEntry>) -> Seq<RegistryModel> {
    entries.map_values(|entry: RegistryEntry| entry@)
}

/// The entry that a field of the registry stands for.
pub open spec fn entry_of(field: (Seq<char>, JsonModel)) -> RegistryModel {
    RegistryModel {
        id: field.0,
        path: json::text_field(field.1, "path"@),
        name: json::text_field(field.1, "name"@),
    }
}

/// The entries of the registry in the state.
pub open spec fn entries_of(state: Option<Seq<char>>) -> Seq<RegistryModel> {
    registry_of(state).map_values(|field: (Seq<char>, JsonModel)| entry_of(field))
}

/// The text of a field of a value.
fn text_of_field(value: &serde_json::Value, name: &str) -> (r: Option<String>)
    ensures
        text::optional_text(r) == json::text_field(json::held(*value), name@),
{
    match json::value_field(value, name) {
        Some(inner) => json::value_text(inner),
        None => None,
    }
}

/// Reads the entries of the registry in the state.
pub fn read_registry(state: Option<&str>) -> (r: Vec<RegistryEntry>)
    ensures
        registry_views(r@) == entries_of(text::optional_view(state)),
{
    let mut entries: Vec<RegistryEntry> = Vec::new();
    assert(registry_views(entries@) =~= Seq::empty());
    assert(Seq::<(Seq<char>, JsonModel)>::empty().map_values(
        |field: (Seq<char>, JsonModel)| entry_of(field),
    ) =~= Seq::empty());
    let state = match state {
        Some(state) => state,
        None => {
            return entries;
        },
    };
    let value = match json::parse_value(state) {
        Some(value) => value,
        None => {
            return entries;
        },
    };
    let registry = match json::value_field(&value, "projectRegistry") {
        Some(registry) => registry,
        None => {
            return entries;
        },
    };
    let fields = match json::value_fields(registry) {
        Some(fields) => fields,
        None => {
            return entries;
        },
    };
    let ghost all = json::held_fields(fields@);
    let mut i: usize = 0;
    while i < fields.len()
        invariant
            i <= fields@.len(),
            all == json::held_fields(fields@),
            entries@.len() == i,
            forall|j: int| 0 <= j < i ==> (#[trigger] entries@[j])@ == entry_of(all[j]),
        decreases fields@.len() - i,
    {
        assert(all[i as int] == (fields@[i as int].0@, json::held(fields@[i as int].1)));
        let (id, value) = &fields[i];
        entries.push(
            RegistryEntry {
                id: id.clone(),
                path: text_of_field(value, "path"),
                name: text_of_field(value, "name"),
            },
        );
        i = i + 1;
    }
    assert(registry_views(entries@) =~= entries_of(text::optional_view(Some(state))));
    entries
}

/// A project that was opened in the past: its name, its path, and the id in its own file if
/// there is one.
pub struct PastProject {
    pub name: String,
    pub path: String,
    pub id: Option<String>,
}

/// The mathematical value of a project that was opened in the past.
pub ghost struct PastModel {
    pub name: Seq<char>,
    pub path: Seq<char>,
    pub id: Option<Seq<char>>,
}

impl View for PastProject {
    type V = PastModel;

    open spec fn view(&self) -> PastModel {
        PastModel { name: self.name@, path: self.path@, id: text::optional_text(self.id) }
    }
}

/// The values of some projects that were opened in the past.
pub open spec fn past_views(past: Seq<PastProject>) -> Seq<PastModel> {
    past.map_values(|project: PastProject| project@)
}

/// The project that an entry of the registry stands for; one without a path stands for none.
pub open spec fn registered(entry: RegistryModel, current: Seq<char>) -> Option<ProjectModel> {
    match entry.path {
        Some(raw) if raw.len() > 0 => {
            let path = paths::normal_path(raw);
            Some(
                ProjectModel {
                    id: entry.id,
                    name: match entry.name {
                        Some(name) => name,
                        None => paths::name_from_path(path),
                    },
                    path,
                    current: path == current,
                },
            )
        },
        _ => None,
    }
}

/// The registered projects by their paths; of two with one path the later counts.
pub open spec fn registered_by_path(entries: Seq<RegistryModel>, current: Seq<char>) -> Map<
    Seq<char>,
    ProjectModel,
>
    decreases entries.len(),
{
    if entries.len() == 0 {
        Map::empty()
    } else {
        let before = registered_by_path(entries.drop_last(), current);
        match registered(entries.last(), current) {
            Some(project) => before.insert(project.path, project),
            None => before,
        }
    }
}

/// The id of a project that is not registered: that of its own file, else its path.
pub open spec fn unregistered_id(path: Seq<char>, id: Option<Seq<char>>) -> Seq<char> {
    match id {
        Some(id) => id,
        None => path,
    }
}

/// The project that was opened in the past.
pub open spec fn opened(project: PastModel, current: Seq<char>) -> ProjectModel {
    let path = paths::normal_path(project.path);
    ProjectModel {
        id: unregistered_id(path, project.id),
        name: if project.name.len() == 0 {
            paths::name_from_path(path)
        } else {
            project.name
        },
        path,
        current: path == current,
    }
}

/// The projects with one more, unless there is one with its path.
pub open spec fn unless_known(
    known: Map<Seq<char>, ProjectModel>,
    project: ProjectModel,
) -> Map<Seq<char>, ProjectModel> {
    if known.dom().contains(project.path) {
        known
    } else {
        known.insert(project.path, project)
    }
}

/// The projects with those that were opened in the past.
pub open spec fn with_opened(
    known: Map<Seq<char>, ProjectModel>,
    past: Seq<PastModel>,
    current: Seq<char>,
) -> Map<Seq<char>, ProjectModel>
    decreases past.len(),
{
    if past.len() == 0 {
        known
    } else {
        unless_known(with_opened(known, past.drop_last(), current), opened(past.last(), current))
    }
}

/// The project that is open now.
pub open spec fn open_now(current: Seq<char>, id: Option<Seq<char>>) -> ProjectModel {
    ProjectModel {
        id: unregistered_id(current, id),
        name: paths::name_from_path(current),
        path: current,
        current: true,
    }
}

/// All projects by their paths: the registered ones, those that were opened in the past, and the
/// one that is open now. Of two with one path the first kind counts.
pub open spec fn known_projects(
    current_path: Seq<char>,
    current_id: Option<Seq<char>>,
    registry: Seq<RegistryModel>,
    past: Seq<PastModel>,
) -> Map<Seq<char>, ProjectModel> {
    let current = paths::normal_path(current_path);
    let known = with_opened(registered_by_path(registry, current), past, current);
    if current.len() == 0 {
        known
    } else {
        unless_known(known, open_now(current, current_id))
    }
}

/// The projects of a map in the order of their paths.
pub open spec fn listed(known: Map<Seq<char>, ProjectModel>) -> Seq<ProjectModel> {
    order::sorted(known.dom()).map_values(|path: Seq<char>| known[path])
}

/// The values of a map of projects.
spec fn map_views(m: Map<Seq<char>, ProjectEntry>) -> Map<Seq<char>, ProjectModel> {
    m.map_values(|p: ProjectEntry| p@)
}

/// Puts the registered projects by their paths.
fn add_registered(current: &str, registry: Vec<RegistryEntry>) -> (r: TextMap<ProjectEntry>)
    ensures
        map_views(r@) == registered_by_path(registry_views(registry@), current@),
{
    let mut known: TextMap<ProjectEntry> = TextMap::new();
    let ghost all = registry_views(registry@);
    assert(map_views(known@) =~= Map::empty());
    assert(all.take(0) =~= Seq::empty());
    for entry in it: registry
        invariant
            it.seq() == registry@,
            all == registry_views(registry@),
            map_views(known@) == registered_by_path(all.take(it.index() as int), current@),
    {
        proof {
            let n = it.index() as int;
            assert(all.take(n + 1).drop_last() =~= all.take(n));
            assert(all.take(n + 1).last() == entry@);
        }
        let RegistryEntry { id, path, name } = entry;
        match path {
            Some(raw) => {
                if text::chars_of(raw.as_str()).len() > 0 {
                    let path = paths::normalize_path(raw.as_str());
                    let name = match name {
                        Some(name) => name,
                        None => paths::project_name_from_path(path.as_str()),
                    };
                    let is_current = text::same_text(path.as_str(), current);
                    let key = path.clone();
                    let project = ProjectEntry { id, name, path, current: is_current };
                    let ghost before = known@;
                    known = known.put(key, project);
                    assert(map_views(known@) =~= map_views(before).insert(key@, project@));
                }
            },
            None => {},
        }
    }
    assert(all.take(all.len() as int) =~= all);
    known
}

/// Adds a project unless there is one with its path.
fn add_unless_known(known: TextMap<ProjectEntry>, project: ProjectEntry) -> (r: TextMap<
    ProjectEntry,
>)
    ensures
        map_views(r@) == unless_known(map_views(known@), project@),
{
    if known.contains(project.path.as_str()) {
        return known;
    }
    let ghost before = known@;
    let ghost value = project@;
    let key = project.path.clone();
    let r = known.put(key, project);
    assert(map_views(r@) =~= map_views(before).insert(value.path, value));
    r
}

/// The id of a project that is not registered.
fn id_or_path(path: &str, id: Option<String>) -> (r: String)
    ensures
        r@ == unregistered_id(path@, text::optional_text(id)),
{
    match id {
        Some(id) => id,
        None => path.to_owned(),
    }
}

/// Lists all projects, from the path and the id of the project that is open now, the entries of
/// the registry, and the projects that were opened in the past.
pub fn merge_projects(
    current_path: &str,
    current_id: Option<String>,
    registry: Vec<RegistryEntry>,
    past: Vec<PastProject>,
) -> (r: Vec<ProjectEntry>)
    ensures
        project_views(r@) == listed(
            known_projects(
                current_path@,
                text::optional_text(current_id),
                registry_views(registry@),
                past_views(past@),
            ),
        ),
{
    let current = paths::normalize_path(current_path);
    let mut known = add_registered(current.as_str(), registry);
    let ghost first = map_views(known@);
    let ghost all = past_views(past@);
    assert(all.take(0) =~= Seq::empty());
    for project in it: past
        invariant
            it.seq() == past@,
            all == past_views(past@),
            map_views(known@) == with_opened(first, all.take(it.index() as int), current@),
    {
        proof {
            let n = it.index() as int;
            assert(all.take(n + 1).drop_last() =~= all.take(n));
            assert(all.take(n + 1).last() == project@);
        }
        let PastProject { name, path, id } = project;
        let path = paths::normalize_path(path.as_str());
        let id = id_or_path(path.as_str(), id);
        let name = if text::chars_of(name.as_str()).len() == 0 {
            paths::project_name_from_path(path.as_str())
        } else {
            name
        };
        let is_current = text::same_text(path.as_str(), current.as_str());
        known = add_unless_known(known, ProjectEntry { id, name, path, current: is_current });
    }
    assert(all.take(all.len() as int) =~= all);
    let ghost goal = known_projects(
        current_path@,
        text::optional_text(current_id),
        registry_views(registry@),
        all,
    );
    if text::chars_of(current.as_str()).len() > 0 {
        let id = id_or_path(current.as_str(), current_id);
        let name = paths::project_name_from_path(current.as_str());
        known = add_unless_known(known, ProjectEntry { id, name, path: current, current: true });
    }
    let ghost m = map_views(known@);
    assert(m == goal);
    let (keys, r) = known.into_entries();
    proof {
        assert(known@.dom() =~= m.dom());
        assert(keys@ =~= m.dom());
        let sorted = order::sorted(m.dom());
        assert forall|i: int| 0 <= i < sorted.len() implies project_views(r@)[i] == listed(
            m,
        )[i] by {
            assert(sorted.contains(sorted[i]));
            assert(keys@.contains(sorted[i]));
        }
        assert(project_views(r@) =~= listed(m));
    }
    r
}

/// A project that was opened in the past: its name, its path, and the text of its own file if
/// there is one.
pub struct OpenedProject {
    pub name: String,
    pub path: String,
    pub id_file: Option<String>,
}

/// The project that was opened in the past, with the id in its own file.
pub open spec fn past_of(project: OpenedProject) -> PastModel {
    PastModel {
        name: project.name@,
        path: project.path@,
        id: stored_id(text::optional_text(project.id_file)),
    }
}

/// Lists all projects, from the path of the project that is open now and the text of its own
/// file, the application state, and the projects that were opened in the past.
pub fn load_projects(
    current_path: &str,
    current_id_file: Option<String>,
    state: Option<&str>,
    past: Vec<OpenedProject>,
) -> (r: Vec<ProjectEntry>)
    ensures
        project_views(r@) == listed(
            known_projects(
                current_path@,
                stored_id(text::optional_text(current_id_file)),
                entries_of(text::optional_view(state)),
                past@.map_values(|project: OpenedProject| past_of(project)),
            ),
        ),
{
    let registry = read_registry(state);
    let current_id = read_project_id(text::optional_str(&current_id_file));
    let ghost all = past@;
    let mut read: Vec<PastProject> = Vec::new();
    for project in it: past
        invariant
            it.seq() == all,
            read@.len() == it.index(),
            forall|j: int| 0 <= j < read@.len() ==> (#[trigger] read@[j])@ == past_of(all[j]),
    {
        let OpenedProject { name, path, id_file } = project;
        let id = read_project_id(text::optional_str(&id_file));
        read.push(PastProject { name, path, id });
    }
    assert(past_views(read@) =~= all.map_values(|project: OpenedProject| past_of(project)));
    merge_projects(current_path, current_id, registry, read)
}

/// Whether every project stands under its path, and is current if and only if that is the path
/// of the project that is open now.
pub open spec fn keyed_by_path(known: Map<Seq<char>, ProjectModel>, current: Seq<char>) -> bool {
    forall|path: Seq<char>| #[trigger]
        known.dom().contains(path) ==> known[path].path == path && known[path].current == (path
            == current)
}

proof fn lemma_registered_keyed(entries: Seq<RegistryModel>, current: Seq<char>)
    ensures
        keyed_by_path(registered_by_path(entries, current), current),
    decreases entries.len(),
{
    if entries.len() > 0 {
        lemma_registered_keyed(entries.drop_last(), current);
    }
}

proof fn lemma_opened_keyed(
    known: Map<Seq<char>, ProjectModel>,
    past: Seq<PastModel>,
    current: Seq<char>,
)
    requires
        keyed_by_path(known, current),
    ensures
        keyed_by_path(with_opened(known, past, current), current),
    decreases past.len(),
{
    if past.len() > 0 {
        lemma_opened_keyed(known, past.drop_last(), current);
    }
}

proof fn lemma_keyed_by_path(
    current_path: Seq<char>,
    current_id: Option<Seq<char>>,
    registry: Seq<RegistryModel>,
    past: Seq<PastModel>,
)
    ensures
        keyed_by_path(
            known_projects(current_path, current_id, registry, past),
            paths::normal_path(current_path),
        ),
{
    let current = paths::normal_path(current_path);
    lemma_registered_keyed(registry, current);
    lemma_opened_keyed(registered_by_path(registry, current), past, current);
}

/// A project is marked current if and only if its path is that of the project that is open now,
/// and where one is open it is known.
pub proof fn current_is_marked(
    current_path: Seq<char>,
    current_id: Option<Seq<char>>,
    registry: Seq<RegistryModel>,
    past: Seq<PastModel>,
    path: Seq<char>,
)
    ensures
        ({
            let known = known_projects(current_path, current_id, registry, past);
            let current = paths::normal_path(current_path);
            &&& known.dom().contains(path) ==> known[path].path == path && known[path].current
                == (path == current)
            &&& current.len() > 0 ==> known.dom().contains(current)
        }),
{
    lemma_keyed_by_path(current_path, current_id, registry, past);
}

proof fn lemma_opened_keeps(
    known: Map<Seq<char>, ProjectModel>,
    past: Seq<PastModel>,
    current: Seq<char>,
    path: Seq<char>,
)
    requires
        known.dom().contains(path),
    ensures
        with_opened(known, past, current).dom().contains(path),
        with_opened(known, past, current)[path] == known[path],
    decreases past.len(),
{
    if past.len() > 0 {
        lemma_opened_keeps(known, past.drop_last(), current, path);
    }
}

/// What the registry says of a project counts, whatever else is known of its path.
pub proof fn registry_counts(
    current_path: Seq<char>,
    current_id: Option<Seq<char>>,
    registry: Seq<RegistryModel>,
    past: Seq<PastModel>,
    path: Seq<char>,
)
    requires
        registered_by_path(registry, paths::normal_path(current_path)).dom().contains(
            path,
        ),
    ensures
        known_projects(current_path, current_id, registry, past).dom().contains(path),
        known_projects(current_path, current_id, registry, past)[path] == registered_by_path(
            registry,
            paths::normal_path(current_path),
        )[path],
{
    let current = paths::normal_path(current_path);
    lemma_opened_keeps(registered_by_path(registry, current), past, current, path);
}

proof fn lemma_registered_finite(entries: Seq<RegistryModel>, current: Seq<char>)
    ensures
        registered_by_path(entries, current).dom().finite(),
    decreases entries.len(),
{
    if entries.len() > 0 {
        lemma_registered_finite(entries.drop_last(), current);
    }
}

proof fn lemma_opened_finite(
    known: Map<Seq<char>, ProjectModel>,
    past: Seq<PastModel>,
    current: Seq<char>,
)
    requires
        known.dom().finite(),
    ensures
        with_opened(known, past, current).dom().finite(),
    decreases past.len(),
{
    if past.len() > 0 {
        lemma_opened_finite(known, past.drop_last(), current);
    }
}

/// The list of projects holds each known project once, in the order of their paths.
pub proof fn list_is_complete(
    current_path: Seq<char>,
    current_id: Option<Seq<char>>,
    registry: Seq<RegistryModel>,
    past: Seq<PastModel>,
)
    ensures
        ({
            let known = known_projects(current_path, current_id, registry, past);
            let list = listed(known);
            &&& order::ascending(list.map_values(|p: ProjectModel| p.path))
            &&& forall|i: int|
                0 <= i < list.len() ==> known.dom().contains((#[trigger] list[i]).path)
                    && known[list[i].path] == list[i]
            &&& forall|path: Seq<char>| #[trigger]
                known.dom().contains(path) ==> list.contains(known[path])
        }),
{
    let known = known_projects(current_path, current_id, registry, past);
    let current = paths::normal_path(current_path);
    lemma_keyed_by_path(current_path, current_id, registry, past);
    lemma_registered_finite(registry, current);
    lemma_opened_finite(registered_by_path(registry, current), past, current);
    let keys = order::sorted(known.dom());
    order::sorted_of_finite(known.dom());
    let list = listed(known);
    assert forall|i: int| 0 <= i < list.len() implies known.dom().contains(
        (#[trigger] list[i]).path,
    ) && known[list[i].path] == list[i] && list[i].path == keys[i] by {
        assert(keys.to_set().contains(keys[i]));
        assert(known.dom().contains(keys[i]));
    }
    assert(list.map_values(|p: ProjectModel| p.path) =~= keys);
    assert forall|path: Seq<char>| #[trigger] known.dom().contains(path) implies list.contains(
        known[path],
    ) by {
        assert(keys.to_set().contains(path));
        let i = keys.index_of(path);
        assert(list[i] == known[path]);
    }
}

/// Whether a request for a project means this one: by its id, by its path, or as the current one.
pub open spec fn is_meant(project: ProjectModel, wanted: Seq<char>, platform: Platform) -> bool {
    ||| project.id == wanted
    ||| paths::same_project_path(project.path, wanted, platform)
    ||| text::ascii_lower(wanted) == "current"@ && project.current
}

/// The first project that is meant.
pub open spec fn first_meant(
    projects: Seq<ProjectModel>,
    wanted: Seq<char>,
    platform: Platform,
) -> Option<ProjectModel>
    decreases projects.len(),
{
    if projects.len() == 0 {
        None
    } else if is_meant(projects[0], wanted, platform) {
        Some(projects[0])
    } else {
        first_meant(projects.drop_first(), wanted, platform)
    }
}

/// The project that a request names in a URL, or that it is unknown.
pub open spec fn resolved(
    project_id: Seq<char>,
    projects: Seq<ProjectModel>,
    platform: Platform,
) -> Result<ProjectModel, Seq<char>> {
    let wanted = url::percent_decoded(project_id);
    match first_meant(projects, wanted, platform) {
        Some(project) => Ok(project),
        None => Err("Unknown project: "@ + wanted),
    }
}

/// The value of a result with a project.
pub open spec fn result_view(r: Result<ProjectEntry, String>) -> Result<ProjectModel, Seq<char>> {
    match r {
        Ok(project) => Ok(project@),
        Err(message) => Err(message@),
    }
}

/// Finds the project that a request names in a URL. Letters of either case are one in a path
/// where the file system says so.
pub fn resolve_project(project_id: &str, projects: Vec<ProjectEntry>, platform: Platform) -> (r:
    Result<ProjectEntry, String>)
    requires
        url::decodable(project_id@),
    ensures
        result_view(r) == resolved(project_id@, project_views(projects@), platform),
{
    let wanted = url::percent_decode(project_id);
    let wants_current = text::same_text(text::ascii_lowered(wanted.as_str()).as_str(), "current");
    let ghost all = project_views(projects@);
    assert(all.skip(0) =~= all);
    for project in it: projects
        invariant
            it.seq() == projects@,
            all == project_views(projects@),
            wants_current == (text::ascii_lower(wanted@) == "current"@),
            wanted@ == url::percent_decoded(project_id@),
            first_meant(all, wanted@, platform) == first_meant(
                all.skip(it.index() as int),
                wanted@,
                platform,
            ),
    {
        proof {
            let n = it.index() as int;
            assert(all.skip(n)[0] == project@);
            assert(all.skip(n).drop_first() =~= all.skip(n + 1));
        }
        if text::same_text(project.id.as_str(), wanted.as_str()) || paths::project_path_matches(
            project.path.as_str(),
            wanted.as_str(),
            platform,
        ) || (wants_current && project.current) {
            return Ok(project);
        }
    }
    assert(all.skip(all.len() as int) =~= Seq::empty());
    Err(response::message_with("Unknown project: ", wanted.as_str()))
}

/// The first project that is current.
pub open spec fn first_current(projects: Seq<ProjectModel>) -> Option<ProjectModel>
    decreases projects.len(),
{
    if projects.len() == 0 {
        None
    } else if projects[0].current {
        Some(projects[0])
    } else {
        first_current(projects.drop_first())
    }
}

/// The project that a request is about: the named one, or the current one, or the first.
pub open spec fn target(
    project_id: Option<Seq<char>>,
    projects: Seq<ProjectModel>,
    platform: Platform,
) -> Result<ProjectModel, Seq<char>> {
    match project_id {
        Some(project_id) => resolved(project_id, projects, platform),
        None => match first_current(projects) {
            Some(project) => Ok(project),
            None => if projects.len() > 0 {
                Ok(projects[0])
            } else {
                Err("No project found"@)
            },
        },
    }
}

/// Where the first current project stands.
fn current_index(projects: &Vec<ProjectEntry>) -> (r: Option<usize>)
    ensures
        match r {
            Some(i) => i < projects@.len() && first_current(project_views(projects@)) == Some(
                projects@[i as int]@,
            ),
            None => first_current(project_views(projects@)) is None,
        },
{
    let ghost all = project_views(projects@);
    assert(all.skip(0) =~= all);
    let mut i: usize = 0;
    while i < projects.len()
        invariant
            i <= projects@.len(),
            all == project_views(projects@),
            first_current(all) == first_current(all.skip(i as int)),
        decreases projects@.len() - i,
    {
        proof {
            assert(all.skip(i as int)[0] == projects@[i as int]@);
            assert(all.skip(i as int).drop_first() =~= all.skip(i + 1));
        }
        if projects[i].current {
            return Some(i);
        }
        i = i + 1;
    }
    assert(all.skip(i as int) =~= Seq::empty());
    None
}

/// Finds the project that a request is about.
pub fn get_target_project(
    project_id: Option<&str>,
    projects: Vec<ProjectEntry>,
    platform: Platform,
) -> (r: Result<ProjectEntry, String>)
    requires
        project_id matches Some(id) ==> url::decodable(id@),
    ensures
        result_view(r) == target(text::optional_view(project_id), project_views(projects@), platform),
{
    match project_id {
        Some(project_id) => resolve_project(project_id, projects, platform),
        None => {
            let at: usize = match current_index(&projects) {
                Some(i) => i,
                None => 0,
            };
            if projects.len() == 0 {
                return Err("No project found".to_owned());
            }
            let mut projects = projects;
            Ok(projects.swap_remove(at))
        },
    }
}

/// A project as JSON.
pub open spec fn project_model(project: ProjectModel) -> JsonModel {
    JsonModel::Object(
        json::no_fields().push(("id"@, JsonModel::Text(project.id))).push(
            ("name"@, JsonModel::Text(project.name)),
        ).push(("path"@, JsonModel::Text(project.path))).push(
            ("current"@, JsonModel::Bool(project.current)),
        ),
    )
}

/// Writes a project as JSON.
fn project_json(project: &ProjectEntry) -> (r: Json)
    ensures
        r@ == project_model(project@),
{
    Fields::new().and("id", Json::text(project.id.as_str())).and(
        "name",
        Json::text(project.name.as_str()),
    ).and("path", Json::text(project.path.as_str())).and("current", Json::Bool(project.current)).object()
}

/// The response that lists the projects.
pub open spec fn project_list(projects: Seq<ProjectModel>) -> ResponseModel {
    response::success(
        json::no_fields().push(("ok"@, JsonModel::Bool(true))).push(
            (
                "projects"@,
                JsonModel::Array(projects.map_values(|p: ProjectModel| project_model(p))),
            ),
        ).push(
            (
                "currentProject"@,
                match first_current(projects) {
                    Some(project) => project_model(project),
                    None => JsonModel::Null,
                },
            ),
        ),
    )
}

/// Answers with the list of projects.
pub fn handle_projects(projects: &Vec<ProjectEntry>) -> (r: OmnimindResponse)
    ensures
        r@ == project_list(project_views(projects@)),
{
    let mut items: Vec<Json> = Vec::new();
    let mut i: usize = 0;
    while i < projects.len()
        invariant
            i <= projects@.len(),
            items@.len() == i,
            forall|j: int|
                0 <= j < i ==> (#[trigger] items@[j])@ == project_model(projects@[j]@),
        decreases projects@.len() - i,
    {
        items.push(project_json(&projects[i]));
        i = i + 1;
    }
    assert(json::items_model(items@) =~= project_views(projects@).map_values(
        |p: ProjectModel| project_model(p),
    ));
    let current = match current_index(projects) {
        Some(i) => project_json(&projects[i]),
        None => Json::Null,
    };
    response::success_response(
        Fields::new().and("ok", Json::Bool(true)).and("projects", json::array(items)).and(
            "currentProject",
            current,
        ),
    )
}

/// The application state is used for five seconds after it was read, and read again after that.
pub proof fn state_lasts_five_seconds(cached: CachedAppState, now: u64)
    requires
        cached.loaded_at <= now,
    ensures
        now - cached.loaded_at < 5_000_000_000 ==> (fresh_state(Some(cached), now) matches Some(
            value,
        ) && value == text::optional_text(cached.value)),
        now - cached.loaded_at >= 5_000_000_000 ==> fresh_state(Some(cached), now) is None,
        fresh_state(None, now) is None,
{
}

/// A state that was read and is JSON displaces the one before, whatever that was; where there was
/// none before, and none can be read, there is none.
pub proof fn new_state_counts(cache: Option<CachedAppState>, raw: Seq<char>)
    ensures
        json::parsed(raw) is Some ==> kept_state(cache, well_formed(Some(raw))) == Some(raw),
        json::parsed(raw) is None ==> well_formed(Some(raw)) is None,
        well_formed(None) is None,
        kept_state(None, None) is None,
{
}

/// The projects that a state registers are the fields of its `projectRegistry`, each with the
/// field's name for its id and the texts under `path` and `name`; its embedding settings stand
/// under `embeddingConfig`, and the id in a project's own file under `id`.
pub proof fn state_is_read(raw: Seq<char>, value: JsonModel, fields: Seq<(Seq<char>, JsonModel)>, i: int)
    requires
        json::parsed(raw) == Some(value),
    ensures
        value.field("projectRegistry"@) == Some(JsonModel::Object(fields)) && 0 <= i < fields.len()
            ==> {
            let entries = entries_of(Some(raw));
            &&& entries.len() == fields.len()
            &&& entries[i].id == fields[i].0
            &&& entries[i].path == json::text_field(fields[i].1, "path"@)
            &&& entries[i].name == json::text_field(fields[i].1, "name"@)
        },
        value.field("projectRegistry"@) is None ==> entries_of(Some(raw)).len() == 0,
        embedding_of(Some(raw)) == (match value.field("embeddingConfig"@) {
            Some(config) => Some(json::written(config)),
            None => None,
        }),
        stored_id(Some(raw)) == json::text_field(value, "id"@),
        entries_of(None).len() == 0,
        embedding_of(None) is None,
        stored_id(None) is None,
{
}

/// A registered project has its id, its path in normal form, and its name, or that of its
/// directory where none is stored. An entry without a path stands for none.
pub proof fn entry_makes_project(entry: RegistryModel, current: Seq<char>)
    ensures
        entry.path matches Some(raw) && raw.len() > 0 ==> (registered(entry, current) matches Some(
            project,
        ) && project.id == entry.id && project.path == paths::normal_path(entry.path->0)
            && project.current == (project.path == current) && (entry.name matches Some(name)
            ==> project.name == name) && (entry.name is None ==> project.name
            == paths::name_from_path(project.path))),
        entry.path is None ==> registered(entry, current) is None,
        entry.path == Some(Seq::<char>::empty()) ==> registered(entry, current) is None,
{
}

/// A project that was opened in the past, and one that is open now, has its path in normal form,
/// the id in its own file, or its path where there is none, and the name that is known, or that of
/// its directory.
pub proof fn opened_project_is_described(project: PastModel, current: Seq<char>, id: Option<Seq<char>>)
    ensures
        ({
            let p = opened(project, current);
            let now = open_now(current, id);
            &&& p.path == paths::normal_path(project.path)
            &&& project.id is Some ==> p.id == project.id->0
            &&& project.id is None ==> p.id == p.path
            &&& project.name.len() > 0 ==> p.name == project.name
            &&& project.name.len() == 0 ==> p.name == paths::name_from_path(p.path)
            &&& p.current == (p.path == current)
            &&& now.path == current && now.current
            &&& id is Some ==> now.id == id->0
            &&& id is None ==> now.id == current
            &&& now.name == paths::name_from_path(current)
        }),
{
}

/// Every registered project is known by its path; of two with one path the later entry counts.
pub proof fn registered_projects_are_known(entries: Seq<RegistryModel>, current: Seq<char>, k: int)
    requires
        0 <= k < entries.len(),
        registered(entries[k], current) is Some,
        forall|j: int|
            k < j < entries.len() ==> !(registered(#[trigger] entries[j], current) matches Some(p)
                && p.path == registered(entries[k], current)->0.path),
    ensures
        ({
            let project = registered(entries[k], current)->0;
            let known = registered_by_path(entries, current);
            known.dom().contains(project.path) && known[project.path] == project
        }),
    decreases entries.len(),
{
    if k < entries.len() - 1 {
        let front = entries.drop_last();
        assert(front[k] == entries[k]);
        assert forall|j: int| k < j < front.len() implies !(registered(
            #[trigger] front[j],
            current,
        ) matches Some(p) && p.path == registered(front[k], current)->0.path) by {
            assert(front[j] == entries[j]);
        }
        registered_projects_are_known(front, current, k);
        assert(entries[entries.len() - 1] == entries.last());
    }
}

/// Whether a project is one that an entry of the registry stands for.
pub open spec fn is_registered(
    registry: Seq<RegistryModel>,
    current: Seq<char>,
    project: ProjectModel,
) -> bool {
    exists|i: int|
        0 <= i < registry.len() && registered(#[trigger] registry[i], current) == Some(project)
}

/// Whether a project is one that was opened in the past.
pub open spec fn was_opened(past: Seq<PastModel>, current: Seq<char>, project: ProjectModel) -> bool {
    exists|i: int| 0 <= i < past.len() && opened(#[trigger] past[i], current) == project
}

proof fn lemma_registered_source(entries: Seq<RegistryModel>, current: Seq<char>, path: Seq<char>)
    requires
        registered_by_path(entries, current).dom().contains(path),
    ensures
        is_registered(entries, current, registered_by_path(entries, current)[path]),
    decreases entries.len(),
{
    if entries.len() > 0 {
        let front = entries.drop_last();
        let last = entries.len() - 1;
        assert(entries[last] == entries.last());
        let made = registered(entries.last(), current);
        if made is Some && made->0.path == path {
            assert(registered(entries[last], current) == Some(
                registered_by_path(entries, current)[path],
            ));
        } else {
            lemma_registered_source(front, current, path);
            let i = choose|i: int|
                0 <= i < front.len() && registered(#[trigger] front[i], current) == Some(
                    registered_by_path(front, current)[path],
                );
            assert(entries[i] == front[i]);
        }
    }
}

proof fn lemma_opened_source(
    known: Map<Seq<char>, ProjectModel>,
    past: Seq<PastModel>,
    current: Seq<char>,
    path: Seq<char>,
)
    requires
        with_opened(known, past, current).dom().contains(path),
    ensures
        known.dom().contains(path) && with_opened(known, past, current)[path] == known[path]
            || was_opened(past, current, with_opened(known, past, current)[path]),
    decreases past.len(),
{
    if past.len() > 0 {
        let front = past.drop_last();
        let last = past.len() - 1;
        assert(past[last] == past.last());
        let before = with_opened(known, front, current);
        if before.dom().contains(path) {
            lemma_opened_source(known, front, current, path);
            if was_opened(front, current, before[path]) {
                let i = choose|i: int|
                    0 <= i < front.len() && opened(#[trigger] front[i], current) == before[path];
                assert(past[i] == front[i]);
            }
        } else {
            assert(opened(past[last], current) == with_opened(known, past, current)[path]);
        }
    }
}

/// No project is made up: each is registered, was opened in the past, or is open now.
pub proof fn known_projects_have_sources(
    current_path: Seq<char>,
    current_id: Option<Seq<char>>,
    registry: Seq<RegistryModel>,
    past: Seq<PastModel>,
    path: Seq<char>,
)
    requires
        known_projects(current_path, current_id, registry, past).dom().contains(path),
    ensures
        ({
            let current = paths::normal_path(current_path);
            let project = known_projects(current_path, current_id, registry, past)[path];
            ||| is_registered(registry, current, project)
            ||| was_opened(past, current, project)
            ||| current.len() > 0 && project == open_now(current, current_id)
        }),
{
    let current = paths::normal_path(current_path);
    let by_path = registered_by_path(registry, current);
    let known = with_opened(by_path, past, current);
    if known.dom().contains(path) {
        lemma_opened_source(by_path, past, current, path);
        if by_path.dom().contains(path) {
            lemma_registered_source(registry, current, path);
        }
    }
}

proof fn lemma_opened_known(
    known: Map<Seq<char>, ProjectModel>,
    past: Seq<PastModel>,
    current: Seq<char>,
    k: int,
)
    requires
        0 <= k < past.len(),
    ensures
        ({
            let project = opened(past[k], current);
            let all = with_opened(known, past, current);
            &&& all.dom().contains(project.path)
            &&& !known.dom().contains(project.path) && (forall|j: int|
                0 <= j < k ==> opened(#[trigger] past[j], current).path != project.path)
                ==> all[project.path] == project
        }),
    decreases past.len(),
{
    let front = past.drop_last();
    let project = opened(past[k], current);
    if k < past.len() - 1 {
        assert(front[k] == past[k]);
        lemma_opened_known(known, front, current, k);
        if forall|j: int| 0 <= j < k ==> opened(#[trigger] past[j], current).path != project.path {
            assert forall|j: int| 0 <= j < k implies opened(#[trigger] front[j], current).path
                != project.path by {
                assert(front[j] == past[j]);
            }
        }
    } else {
        let before = with_opened(known, front, current);
        if before.dom().contains(project.path) && !known.dom().contains(project.path) {
            lemma_opened_source(known, front, current, project.path);
            lemma_opened_keys(known, front, current, project.path);
        }
    }
}

proof fn lemma_opened_keys(
    known: Map<Seq<char>, ProjectModel>,
    past: Seq<PastModel>,
    current: Seq<char>,
    path: Seq<char>,
)
    requires
        with_opened(known, past, current).dom().contains(path),
        !known.dom().contains(path),
    ensures
        exists|j: int| 0 <= j < past.len() && opened(#[trigger] past[j], current).path == path,
    decreases past.len(),
{
    if past.len() > 0 {
        let front = past.drop_last();
        let last = past.len() - 1;
        assert(past[last] == past.last());
        if with_opened(known, front, current).dom().contains(path) {
            lemma_opened_keys(known, front, current, path);
            let j = choose|j: int|
                0 <= j < front.len() && opened(#[trigger] front[j], current).path == path;
            assert(past[j] == front[j]);
        } else {
            assert(opened(past[last], current).path == path);
        }
    }
}

/// Every project that was opened in the past is known by its path; where its path is not
/// registered, the first that was opened there counts.
pub proof fn opened_projects_are_known(
    current_path: Seq<char>,
    current_id: Option<Seq<char>>,
    registry: Seq<RegistryModel>,
    past: Seq<PastModel>,
    k: int,
)
    requires
        0 <= k < past.len(),
    ensures
        ({
            let current = paths::normal_path(current_path);
            let project = opened(past[k], current);
            let known = known_projects(current_path, current_id, registry, past);
            &&& known.dom().contains(project.path)
            &&& !registered_by_path(registry, current).dom().contains(project.path) && (forall|
                j: int,
            |
                0 <= j < k ==> opened(#[trigger] past[j], current).path != project.path)
                ==> known[project.path] == project
        }),
{
    let current = paths::normal_path(current_path);
    lemma_opened_known(registered_by_path(registry, current), past, current, k);
}

/// A request means a project by its id, by its path, or as the current one by the word `current`
/// in letters of either case; and by nothing else.
pub proof fn project_is_meant(project: ProjectModel, wanted: Seq<char>, platform: Platform)
    ensures
        is_meant(project, project.id, platform),
        is_meant(project, project.path, platform),
        project.current && text::ascii_lower(wanted) == "current"@ ==> is_meant(
            project,
            wanted,
            platform,
        ),
        is_meant(project, wanted, platform) && project.id != wanted
            && !paths::same_project_path(project.path, wanted, platform) ==> project.current
            && text::ascii_lower(wanted) == "current"@,
{
}

/// The project that a request names is the first that it means, with the name percent-decoded; it
/// is unknown only where it means none, and then the message names it.
pub proof fn first_project_is_found(
    project_id: Seq<char>,
    projects: Seq<ProjectModel>,
    platform: Platform,
    k: int,
)
    requires
        0 <= k <= projects.len(),
        forall|j: int|
            0 <= j < k ==> !is_meant(
                #[trigger] projects[j],
                url::percent_decoded(project_id),
                platform,
            ),
        k < projects.len() ==> is_meant(projects[k], url::percent_decoded(project_id), platform),
    ensures
        k < projects.len() ==> resolved(project_id, projects, platform) == Ok::<
            ProjectModel,
            Seq<char>,
        >(projects[k]),
        k == projects.len() ==> resolved(project_id, projects, platform) == Err::<
            ProjectModel,
            Seq<char>,
        >("Unknown project: "@ + url::percent_decoded(project_id)),
        target(Some(project_id), projects, platform) == resolved(project_id, projects, platform),
{
    lemma_first_meant(projects, url::percent_decoded(project_id), platform, k);
}

proof fn lemma_first_meant(
    projects: Seq<ProjectModel>,
    wanted: Seq<char>,
    platform: Platform,
    k: int,
)
    requires
        0 <= k <= projects.len(),
        forall|j: int| 0 <= j < k ==> !is_meant(#[trigger] projects[j], wanted, platform),
        k < projects.len() ==> is_meant(projects[k], wanted, platform),
    ensures
        first_meant(projects, wanted, platform) == (if k < projects.len() {
            Some(projects[k])
        } else {
            None
        }),
    decreases k,
{
    if k > 0 {
        let rest = projects.drop_first();
        assert forall|j: int| 0 <= j < k - 1 implies !is_meant(
            #[trigger] rest[j],
            wanted,
            platform,
        ) by {
            assert(rest[j] == projects[j + 1]);
        }
        assert(!is_meant(projects[0], wanted, platform));
        lemma_first_meant(rest, wanted, platform, k - 1);
    }
}

/// Where a request names no project it is about the current one, else about the first; there is
/// none only where no project is known.
pub proof fn unnamed_project_is_current(projects: Seq<ProjectModel>, platform: Platform, k: int)
    requires
        0 <= k <= projects.len(),
        forall|j: int| 0 <= j < k ==> !(#[trigger] projects[j]).current,
        k < projects.len() ==> projects[k].current,
    ensures
        k < projects.len() ==> target(None, projects, platform) == Ok::<ProjectModel, Seq<char>>(
            projects[k],
        ) && first_current(projects) == Some(projects[k]),
        k == projects.len() && projects.len() > 0 ==> target(None, projects, platform) == Ok::<
            ProjectModel,
            Seq<char>,
        >(projects[0]),
        projects.len() == 0 ==> target(None, projects, platform) == Err::<ProjectModel, Seq<char>>(
            "No project found"@,
        ),
        k == projects.len() ==> first_current(projects) is None,
    decreases k,
{
    if k > 0 {
        let rest = projects.drop_first();
        assert forall|j: int| 0 <= j < k - 1 implies !(#[trigger] rest[j]).current by {
            assert(rest[j] == projects[j + 1]);
        }
        assert(!projects[0].current);
        unnamed_project_is_current(rest, platform, k - 1);
    }
}

/// A project is written with its own fields.
pub proof fn project_is_written(project: ProjectModel)
    ensures
        ({
            let value = project_model(project);
            &&& value->Object_0.len() == 4
            &&& value.field("id"@) == Some(JsonModel::Text(project.id))
            &&& value.field("name"@) == Some(JsonModel::Text(project.name))
            &&& value.field("path"@) == Some(JsonModel::Text(project.path))
            &&& value.field("current"@) == Some(JsonModel::Bool(project.current))
        }),
{
    reveal_strlit("id");
    reveal_strlit("name");
    reveal_strlit("path");
    reveal_strlit("current");
    assert("id"@.len() == 2 && "name"@.len() == 4 && "path"@.len() == 4);
    assert("current"@.len() == 7 && "name"@[0] == 'n' && "path"@[0] == 'p');
    let fields = (project_model(project))->Object_0;
    assert(fields[0] == ("id"@, JsonModel::Text(project.id)));
    assert(fields[1] == ("name"@, JsonModel::Text(project.name)));
    assert(fields[2] == ("path"@, JsonModel::Text(project.path)));
    assert(fields[3] == ("current"@, JsonModel::Bool(project.current)));
    json::each_field_is_read(fields);
}

/// The list of projects holds each of them in order, and the current one by itself.
pub proof fn projects_are_written(projects: Seq<ProjectModel>)
    ensures
        ({
            let value = project_list(projects).body;
            &&& value.field("ok"@) == Some(JsonModel::Bool(true))
            &&& value.field("projects"@) == Some(
                JsonModel::Array(projects.map_values(|p: ProjectModel| project_model(p))),
            )
        }),
        project_list(projects).status == 200,
        project_list(projects).body->Object_0.len() == 3,
        first_current(projects) matches Some(project) ==> project_list(projects).body.field(
            "currentProject"@,
        ) == Some(project_model(project)),
        first_current(projects) is None ==> project_list(projects).body.field("currentProject"@)
            == Some(JsonModel::Null),
{
    reveal_strlit("ok");
    reveal_strlit("projects");
    assert("ok"@.len() == 2 && "projects"@.len() == 8);
    reveal_strlit("currentProject");
    assert("currentProject"@.len() == 14);
    let fields = (project_list(projects).body)->Object_0;
    assert(fields[2].0 == "currentProject"@);
    assert(fields[0] == ("ok"@, JsonModel::Bool(true)));
    assert(fields[1] == (
        "projects"@,
        JsonModel::Array(projects.map_values(|p: ProjectModel| project_model(p))),
    ));
    json::each_field_is_read(fields);
}

/// Projects, and what the application remembers of them, are taken for what they hold, in their
/// order.
pub proof fn projects_are_taken_as_they_are(
    projects: Seq<ProjectEntry>,
    entries: Seq<RegistryEntry>,
    past: Seq<PastProject>,
    i: int,
)
    ensures
        project_views(projects).len() == projects.len(),
        0 <= i < projects.len() ==> ({
            let p = project_views(projects)[i];
            &&& p == projects[i]@
            &&& p.id == projects[i].id@
            &&& p.name == projects[i].name@
            &&& p.path == projects[i].path@
            &&& p.current == projects[i].current
        }),
        registry_views(entries).len() == entries.len(),
        0 <= i < entries.len() ==> ({
            let e = registry_views(entries)[i];
            &&& e.id == entries[i].id@
            &&& e.path is Some == entries[i].path is Some
            &&& e.name is Some == entries[i].name is Some
            &&& entries[i].path matches Some(path) ==> e.path == Some(path@)
            &&& entries[i].name matches Some(name) ==> e.name == Some(name@)
        }),
        past_views(past).len() == past.len(),
        0 <= i < past.len() ==> ({
            let p = past_views(past)[i];
            &&& p.name == past[i].name@
            &&& p.path == past[i].path@
            &&& p.id is Some == past[i].id is Some
            &&& past[i].id matches Some(id) ==> p.id == Some(id@)
        }),
{
}

/// A project that was asked for is given as it is, and one that was not found is told why.
pub proof fn found_project_is_given(project: ProjectEntry, message: String)
    ensures
        result_view(Ok(project)) == Ok::<ProjectModel, Seq<char>>(project@),
        result_view(Err(message)) == Err::<ProjectModel, Seq<char>>(message@),
{
}

/// A project that was opened keeps the name and the path under which it was, whatever its id file
/// holds, and has no id without that file.
pub proof fn opened_project_is_kept(project: OpenedProject)
    ensures
        past_of(project).name == project.name@,
        past_of(project).path == project.path@,
        project.id_file is None ==> past_of(project).id is None,
{
}

} // verus!

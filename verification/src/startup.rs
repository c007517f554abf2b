//! How the service is started: the command line, the address, and where its data lies.
use crate::paths;
use crate::text;
use vstd::prelude::*;
use vstd::string::*;

verus! {

/// Whether one of the arguments asks for the service.
pub open spec fn asks_for_server(args: Seq<String>) -> bool {
    exists|i: int| 0 <= i < args.len() && (#[trigger] args[i])@ == "--server-only"@
}

/// Whether the command line asks for the headless service.
pub fn should_start_from_args(args: &[String]) -> (r: bool)
    ensures
        r == asks_for_server(args@),
{
    let mut i: usize = 0;
    while i < args.len()
        invariant
            i <= args@.len(),
            forall|j: int| 0 <= j < i ==> (#[trigger] args@[j])@ != "--server-only"@,
        decreases args@.len() - i,
    {
        if text::same_text(args[i].as_str(), "--server-only") {
            return true;
        }
        i = i + 1;
    }
    false
}

/// The address to listen on: the configured one unless it is blank, else the local default.
pub fn bind_address(configured: Option<&str>) -> (r: String)
    ensures
        r@ == (match configured {
            Some(address) if text::trim(address@).len() > 0 => address@,
            _ => "127.0.0.1:19829"@,
        }),
{
    match configured {
        Some(address) => if text::is_blank(address) {
            "127.0.0.1:19829".to_owned()
        } else {
            address.to_owned()
        },
        None => "127.0.0.1:19829".to_owned(),
    }
}

/// The operating systems whose customs for application data differ.
#[derive(Clone, Copy, Debug, PartialEq, Eq, Structural)]
pub enum Platform {
    MacOs,
    Windows,
    Other,
}

/// Where the application data lies by custom: below a directory of the user, from the
/// environment's `HOME`, `USERPROFILE` and `APPDATA`.
pub open spec fn customary_data_dir(
    platform: Platform,
    home: Option<Seq<char>>,
    user_profile: Option<Seq<char>>,
    app_data: Option<Seq<char>>,
) -> Option<Seq<char>> {
    let base = match home {
        Some(home) => Some(home),
        None => user_profile,
    };
    match (base, platform, app_data) {
        (None, _, _) => None,
        (Some(base), Platform::MacOs, _) => Some(
            paths::join(base, "Library/Application Support/com.llmwiki.app"@),
        ),
        (Some(_), Platform::Windows, Some(app_data)) => Some(
            paths::join(paths::slashed(platform, app_data), "com.llmwiki.app"@),
        ),
        (Some(_), Platform::Windows, None) => None,
        (Some(base), Platform::Other, _) => Some(
            paths::join(base, ".local/share/com.llmwiki.app"@),
        ),
    }
}

/// Tells where the application data lies by custom.
fn customary_dir(
    platform: Platform,
    home: Option<String>,
    user_profile: Option<String>,
    app_data: Option<String>,
) -> (r: Option<String>)
    ensures
        text::optional_text(r) == customary_data_dir(
            platform,
            text::optional_text(home),
            text::optional_text(user_profile),
            text::optional_text(app_data),
        ),
{
    let base = match home {
        Some(home) => home,
        None => match user_profile {
            Some(user_profile) => user_profile,
            None => {
                return None;
            },
        },
    };
    match platform {
        Platform::MacOs => Some(
            paths::joined(base.as_str(), "Library/Application Support/com.llmwiki.app"),
        ),
        Platform::Windows => match app_data {
            Some(app_data) => Some(
                paths::joined(
                    paths::slashed_text(platform, app_data.as_str()).as_str(),
                    "com.llmwiki.app",
                ),
            ),
            None => None,
        },
        Platform::Other => Some(paths::joined(base.as_str(), ".local/share/com.llmwiki.app")),
    }
}

/// A step on the way to the directory of the application data.
pub enum DataDirStep {
    /// Asks whether a directory exists.
    Exists(DataDirQuestion),
    /// The directory, if there is one.
    Done(Option<String>),
}

/// The question whether a directory exists, and the directory to ask about if it does not.
pub struct DataDirQuestion {
    pub path: String,
    pub otherwise: Option<String>,
}

/// A step as its texts.
pub ghost enum DataDirModel {
    Exists(Seq<char>, Option<Seq<char>>),
    Done(Option<Seq<char>>),
}

impl View for DataDirStep {
    type V = DataDirModel;

    open spec fn view(&self) -> DataDirModel {
        match *self {
            DataDirStep::Exists(question) => DataDirModel::Exists(
                question.path@,
                text::optional_text(question.otherwise),
            ),
            DataDirStep::Done(found) => DataDirModel::Done(text::optional_text(found)),
        }
    }
}

/// The step that asks about a directory, if there is one to ask about.
pub open spec fn asked(path: Option<Seq<char>>) -> DataDirModel {
    match path {
        Some(path) => DataDirModel::Exists(path, None),
        None => DataDirModel::Done(None),
    }
}

/// The first step: the configured directory goes before the customary one.
pub open spec fn first_step(
    configured: Option<Seq<char>>,
    customary: Option<Seq<char>>,
) -> DataDirModel {
    match configured {
        Some(path) => DataDirModel::Exists(path, customary),
        None => asked(customary),
    }
}

/// The step behind a question: a directory that exists is the one that is looked for.
pub open spec fn next_step(
    path: Seq<char>,
    otherwise: Option<Seq<char>>,
    present: bool,
) -> DataDirModel {
    if present {
        DataDirModel::Done(Some(path))
    } else {
        asked(otherwise)
    }
}

/// Asks about a directory, if there is one to ask about.
fn ask(path: Option<String>) -> (r: DataDirStep)
    ensures
        r@ == asked(text::optional_text(path)),
{
    match path {
        Some(path) => DataDirStep::Exists(DataDirQuestion { path, otherwise: None }),
        None => DataDirStep::Done(None),
    }
}

impl DataDirQuestion {
    /// Goes on with the answer.
    pub fn answer(self, present: bool) -> (r: DataDirStep)
        ensures
            r@ == next_step(self.path@, text::optional_text(self.otherwise), present),
    {
        if present {
            DataDirStep::Done(Some(self.path))
        } else {
            ask(self.otherwise)
        }
    }
}

/// Looks for the directory of the application data.
pub fn get_app_data_dir(
    configured: Option<String>,
    platform: Platform,
    home: Option<String>,
    user_profile: Option<String>,
    app_data: Option<String>,
) -> (r: DataDirStep)
    ensures
        r@ == first_step(
            text::optional_text(configured),
            customary_data_dir(
                platform,
                text::optional_text(home),
                text::optional_text(user_profile),
                text::optional_text(app_data),
            ),
        ),
{
    let customary = customary_dir(platform, home, user_profile, app_data);
    match configured {
        Some(path) => DataDirStep::Exists(DataDirQuestion { path, otherwise: customary }),
        None => ask(customary),
    }
}

/// The directory that a step leads to on a file system that holds the directories `there`.
pub open spec fn led_to(there: Set<Seq<char>>, step: DataDirModel) -> Option<Seq<char>> {
    match step {
        DataDirModel::Exists(path, otherwise) => if there.contains(path) {
            Some(path)
        } else {
            match otherwise {
                Some(path) if there.contains(path) => Some(path),
                _ => None,
            }
        },
        DataDirModel::Done(found) => found,
    }
}

/// On any file system an honest answer leads on to where its question leads.
pub proof fn answer_keeps_way(
    there: Set<Seq<char>>,
    path: Seq<char>,
    otherwise: Option<Seq<char>>,
)
    ensures
        led_to(there, next_step(path, otherwise, there.contains(path))) == led_to(
            there,
            DataDirModel::Exists(path, otherwise),
        ),
{
}

/// On any file system the configured directory holds the application data if it exists, else the
/// customary one if that exists, else none.
pub proof fn configured_dir_goes_first(
    there: Set<Seq<char>>,
    configured: Option<Seq<char>>,
    customary: Option<Seq<char>>,
)
    ensures
        led_to(there, first_step(configured, customary)) == (match (configured, customary) {
            (Some(path), _) if there.contains(path) => Some(path),
            (_, Some(path)) if there.contains(path) => Some(path),
            _ => None,
        }),
{
}

/// The file that the state of the application is kept in.
pub fn state_file(data_dir: &str) -> (r: String)
    ensures
        r@ == paths::join(data_dir@, "app-state.json"@),
{
    paths::joined(data_dir, "app-state.json")
}

/// The application data lies below the home on most systems, each in its customary place, and
/// below the application data of the user on Windows. `HOME` counts before `USERPROFILE`; without
/// either there is none.
pub proof fn data_lies_by_custom(
    home: Seq<char>,
    profile: Option<Seq<char>>,
    data: Option<Seq<char>>,
    roaming: Seq<char>,
)
    requires
        home.len() > 0 && home.last() != '/',
        roaming.len() > 0 && roaming.last() != '/' && !roaming.contains('\\'),
    ensures
        customary_data_dir(Platform::MacOs, Some(home), profile, data) == Some(
            home + seq!['/'] + "Library/Application Support/com.llmwiki.app"@,
        ),
        customary_data_dir(Platform::Other, Some(home), profile, data) == Some(
            home + seq!['/'] + ".local/share/com.llmwiki.app"@,
        ),
        customary_data_dir(Platform::Other, None, Some(home), data) == Some(
            home + seq!['/'] + ".local/share/com.llmwiki.app"@,
        ),
        customary_data_dir(Platform::Windows, Some(home), profile, Some(roaming)) == Some(
            roaming + seq!['/'] + "com.llmwiki.app"@,
        ),
        customary_data_dir(Platform::Windows, Some(home), profile, None) is None,
        customary_data_dir(Platform::Other, None, None, data) is None,
        customary_data_dir(Platform::MacOs, None, None, data) is None,
        customary_data_dir(Platform::Windows, None, None, data) is None,
{
    reveal_strlit("Library/Application Support/com.llmwiki.app");
    reveal_strlit(".local/share/com.llmwiki.app");
    reveal_strlit("com.llmwiki.app");
    text::replace_is_exact(roaming, '\\', '/');
    paths::join_puts_below(home, "Library/Application Support/com.llmwiki.app"@);
    paths::join_puts_below(home, ".local/share/com.llmwiki.app"@);
    paths::join_puts_below(roaming, "com.llmwiki.app"@);
}

/// The service is started by the argument `--server-only`, wherever it stands among the others, and
/// by no other.
pub proof fn service_is_asked_for(args: Seq<String>)
    ensures
        asks_for_server(args) <==> text::views(args).contains("--server-only"@),
{
    let all = text::views(args);
    if all.contains("--server-only"@) {
        let i = all.index_of("--server-only"@);
        assert(args[i]@ == "--server-only"@);
    }
    if asks_for_server(args) {
        let i = choose|i: int| 0 <= i < args.len() && (#[trigger] args[i])@ == "--server-only"@;
        assert(all[i] == "--server-only"@);
    }
}

} // verus!

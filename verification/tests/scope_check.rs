use omnimind_server::mode::RetrievalMode;
use omnimind_server::order::TextSet;
use omnimind_server::scope::resolve_chat_context_scan_roots;
use omnimind_server::scope_check::{
    validate_allowed_source_files, FileKind, Metadata, ScopeStep, ValidatedSourceFileScope,
};

struct Disk {
    entries: Vec<(&'static str, FileKind)>,
    real: Vec<(&'static str, &'static str)>,
}

impl Disk {
    fn metadata(&self, path: &[u8]) -> Metadata {
        for (name, kind) in &self.entries {
            if name.as_bytes() == path {
                return Metadata::Found(*kind);
            }
        }
        if path.ends_with(b"locked") {
            return Metadata::Unavailable;
        }
        Metadata::NotFound
    }

    fn canonical(&self, path: &[u8]) -> Option<Vec<u8>> {
        for (name, target) in &self.real {
            if name.as_bytes() == path {
                return Some(target.as_bytes().to_vec());
            }
        }
        None
    }

    fn validate(
        &self,
        root: &str,
        allowed: Option<TextSet>,
    ) -> Result<ValidatedSourceFileScope, &'static str> {
        let mut step = validate_allowed_source_files(root, allowed);
        loop {
            step = match step {
                ScopeStep::RootMetadata(check) => {
                    let answer = self.metadata(check.path().as_bytes());
                    check.metadata(answer)
                }
                ScopeStep::RootCanonical(check) => {
                    let answer = self.canonical(check.path().as_bytes());
                    check.canonical(answer)
                }
                ScopeStep::Component(check) => {
                    let answer = self.metadata(check.path());
                    check.component(answer)
                }
                ScopeStep::Target(check) => {
                    let answer = self.canonical(check.path());
                    check.target(answer)
                }
                ScopeStep::Done(done) => return done,
            };
        }
    }
}

fn set(paths: &[&str]) -> TextSet {
    let mut set = TextSet::new();
    for path in paths {
        set = set.with(path.to_string());
    }
    set
}

fn disk() -> Disk {
    Disk {
        entries: vec![
            ("/p", FileKind::Directory),
            ("/link", FileKind::Symlink),
            ("/file", FileKind::File),
            ("/lost", FileKind::Directory),
            ("/real/raw", FileKind::Directory),
            ("/real/raw/sources", FileKind::Directory),
            ("/real/raw/sources/产品资料.md", FileKind::File),
            ("/real/raw/sources/inside.md", FileKind::File),
            ("/real/raw/sources/stray.md", FileKind::File),
            ("/real/raw/sources/gone.md", FileKind::File),
            ("/real/raw/sources/inside-link.md", FileKind::Symlink),
            ("/real/raw/sources/outside-link.md", FileKind::Symlink),
            ("/real/raw/sources/outside-dir-link", FileKind::Symlink),
            ("/real/raw/sources/chain-link.md", FileKind::Symlink),
            ("/real/raw/pipe", FileKind::Other),
        ],
        real: vec![
            ("/p", "/real"),
            ("/real/raw/sources/产品资料.md", "/real/raw/sources/产品资料.md"),
            ("/real/raw/sources/inside.md", "/real/raw/sources/inside.md"),
            ("/real/raw/sources/stray.md", "/elsewhere/stray.md"),
        ],
    }
}

#[test]
fn explicit_source_scope_keeps_existing_files_and_skips_missing_candidates() {
    let disk = disk();
    let allowed = set(&["raw/sources/产品资料.md", "raw/sources/已清理资料.md"]);
    let validated = disk.validate("/p", Some(allowed)).ok().unwrap();
    assert_eq!(validated.project_root, "/real");
    assert_eq!(
        validated.allowed_paths.unwrap().items(),
        &vec!["raw/sources/产品资料.md".to_string()]
    );

    assert!(disk.validate("/p", Some(set(&["raw/sources"]))).is_err());

    let missing = set(&["raw/sources/不存在.md", "wiki/父目录也不存在/资料.md"]);
    let validated_missing = disk.validate("/p", Some(missing)).ok().unwrap();
    let validated_missing_paths = validated_missing
        .allowed_paths
        .expect("an allowlist stays one");
    assert!(validated_missing_paths.is_empty());
    assert!(
        resolve_chat_context_scan_roots(RetrievalMode::Hybrid, Some(&validated_missing_paths))
            .is_empty()
    );
}

#[test]
fn explicit_source_scope_rejects_file_directory_root_and_chained_symlinks() {
    let disk = disk();
    for path in [
        "raw/sources/inside-link.md",
        "raw/sources/outside-link.md",
        "raw/sources/outside-dir-link/outside.md",
        "raw/sources/chain-link.md",
    ] {
        assert_eq!(
            disk.validate("/p", Some(set(&[path]))).err(),
            Some("allowed source path must not contain symlinks"),
            "{path}"
        );
    }
    assert_eq!(
        disk.validate("/link", Some(set(&["raw/sources/inside.md"])))
            .err(),
        Some("project root must be a real directory for explicit source scope")
    );
}

#[test]
fn source_scope_says_why_it_refuses() {
    let disk = disk();
    let refusal = |root: &str, path: &str| disk.validate(root, Some(set(&[path]))).err();
    assert_eq!(
        refusal("/nowhere", "a"),
        Some("project root is unavailable for source scope validation")
    );
    assert_eq!(
        refusal("/file", "a"),
        Some("project root must be a real directory for explicit source scope")
    );
    assert_eq!(
        refusal("/lost", "a"),
        Some("project root cannot be canonicalized for source scope validation")
    );
    assert_eq!(
        refusal("/p", "raw/locked"),
        Some("allowed source path metadata is unavailable")
    );
    assert_eq!(
        refusal("/p", "raw/pipe"),
        Some("allowed source path must reference a regular file")
    );
    assert_eq!(
        refusal("/p", "raw/sources/inside.md/a"),
        Some("allowed source path parent must be a real directory")
    );
    assert_eq!(
        refusal("/p", "raw/sources/gone.md"),
        Some("allowed source path cannot be canonicalized")
    );
    assert_eq!(
        refusal("/p", "raw/sources/stray.md"),
        Some("allowed source path must remain inside the project root")
    );
}

#[test]
fn no_allowlist_needs_no_check() {
    let validated = disk().validate("/nowhere", None).ok().unwrap();
    assert_eq!(validated.project_root, "/nowhere");
    assert!(validated.allowed_paths.is_none());
}

#[test]
fn real_paths_have_to_be_text() {
    let step = validate_allowed_source_files("/p", Some(set(&["a"])));
    let step = match step {
        ScopeStep::RootMetadata(check) => check.metadata(Metadata::Found(FileKind::Directory)),
        _ => panic!("the root comes first"),
    };
    let step = match step {
        ScopeStep::RootCanonical(check) => check.canonical(Some(vec![b'/', 0xff])),
        _ => panic!("then its real path"),
    };
    let step = match step {
        ScopeStep::Component(check) => {
            assert_eq!(check.path(), &vec![b'/', 0xff, b'/', b'a']);
            check.component(Metadata::Found(FileKind::File))
        }
        _ => panic!("then the components"),
    };
    let step = match step {
        ScopeStep::Target(check) => check.target(Some(vec![b'/', 0xff, b'/', 0xfe])),
        _ => panic!("then the file"),
    };
    match step {
        ScopeStep::Done(done) => {
            assert_eq!(done.err(), Some("allowed source path must be valid UTF-8"));
        }
        _ => panic!("then the end"),
    }
    let step = match validate_allowed_source_files("/p", Some(set(&["a"]))) {
        ScopeStep::RootMetadata(check) => check.metadata(Metadata::Found(FileKind::Directory)),
        _ => panic!("the root comes first"),
    };
    let step = match step {
        ScopeStep::RootCanonical(check) => check.canonical(Some(vec![b'/', 0xff])),
        _ => panic!("then its real path"),
    };
    let step = match step {
        ScopeStep::Component(check) => check.component(Metadata::NotFound),
        _ => panic!("then the components"),
    };
    match step {
        ScopeStep::Done(done) => {
            assert_eq!(
                done.err(),
                Some("canonical project root must be valid UTF-8")
            );
        }
        _ => panic!("then the end"),
    }
}

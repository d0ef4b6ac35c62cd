use std::collections::BTreeMap;

use syncdir::engine::{Action, Engine, Event, Opts, Phase, Report, ReportKind, Step};
use syncdir::error::{BadCopy, SyncError};
use syncdir::fingerprint::Fingerprint;
use syncdir::object::{EntryKind, Object};
use syncdir::path::TreePath;

fn path(parts: &[&str]) -> TreePath {
    TreePath::from_components(parts.iter().map(|p| p.to_string()).collect())
}

fn opts(hidden: bool, remove: bool) -> Opts {
    Opts {
        source: path(&["src"]),
        destination: path(&["dst"]),
        include_hidden_files: hidden,
        remove_copied_files: remove,
    }
}

fn file(rel: &[&str]) -> Object {
    let mut whole = vec!["src"];
    whole.extend_from_slice(rel);
    Object::new(&path(&["src"]), path(&whole), EntryKind::File)
}

fn directory(rel: &[&str]) -> Object {
    let mut whole = vec!["src"];
    whole.extend_from_slice(rel);
    Object::new(&path(&["src"]), path(&whole), EntryKind::Directory)
}

fn print(bytes: &[u8]) -> Fingerprint {
    Fingerprint::new(bytes.to_vec())
}

fn asks(outcome: Result<(Engine, Step), SyncError>) -> (Engine, Option<Report>, Action) {
    match outcome {
        Ok((engine, step)) => (engine, step.report, step.action),
        Err(error) => panic!("the engine failed: {:?}", error),
    }
}

fn fails(outcome: Result<(Engine, Step), SyncError>) -> SyncError {
    match outcome {
        Ok((_, step)) => panic!("the engine went on: {:?}", step),
        Err(error) => error,
    }
}

#[derive(Clone, Debug, PartialEq, Eq)]
enum Node {
    Directory,
    File(Vec<u8>),
}

/// A file system in memory that answers the engine's actions.
#[derive(Clone, Debug, PartialEq, Eq)]
struct Disk {
    nodes: BTreeMap<Vec<String>, Node>,
    /// Copies lose their last byte.
    truncating: bool,
    copies: usize,
}

impl Disk {
    fn new() -> Disk {
        Disk { nodes: BTreeMap::new(), truncating: false, copies: 0 }
    }

    fn key(parts: &[&str]) -> Vec<String> {
        parts.iter().map(|p| p.to_string()).collect()
    }

    fn with_directory(mut self, parts: &[&str]) -> Disk {
        self.nodes.insert(Disk::key(parts), Node::Directory);
        self
    }

    fn with_file(mut self, parts: &[&str], bytes: &[u8]) -> Disk {
        self.nodes.insert(Disk::key(parts), Node::File(bytes.to_vec()));
        self
    }

    fn get(&self, parts: &[&str]) -> Option<&Node> {
        self.nodes.get(&Disk::key(parts))
    }

    fn is_directory(&self, key: &[String]) -> bool {
        matches!(self.nodes.get(key), Some(Node::Directory))
    }

    fn refused() -> Event {
        Event::Failed("refused".to_string())
    }

    fn respond(&mut self, action: Action) -> Event {
        match action {
            Action::Probe { path } => Event::Exists(self.nodes.contains_key(&path.components)),
            Action::CreateDirectory { path } => {
                let key = path.components;
                for n in 1..=key.len() {
                    if let Some(Node::File(_)) = self.nodes.get(&key[..n]) {
                        return Disk::refused();
                    }
                }
                for n in 1..=key.len() {
                    self.nodes.entry(key[..n].to_vec()).or_insert(Node::Directory);
                }
                Event::Done
            }
            Action::Fingerprint { path } => match self.nodes.get(&path.components) {
                Some(Node::File(bytes)) => Event::Fingerprint(Fingerprint::new(bytes.clone())),
                _ => Disk::refused(),
            },
            Action::Copy { source, destination } => {
                let to = destination.components;
                let bytes = match self.nodes.get(&source.components) {
                    Some(Node::File(bytes)) => bytes.clone(),
                    _ => return Disk::refused(),
                };
                if to.is_empty() || self.is_directory(&to) {
                    return Disk::refused();
                }
                if to.len() > 1 && !self.is_directory(&to[..to.len() - 1]) {
                    return Disk::refused();
                }
                let written = if self.truncating && !bytes.is_empty() {
                    bytes[..bytes.len() - 1].to_vec()
                } else {
                    bytes
                };
                self.nodes.insert(to, Node::File(written));
                self.copies += 1;
                Event::Done
            }
            Action::Remove { path } => match self.nodes.get(&path.components) {
                Some(Node::File(_)) => {
                    self.nodes.remove(&path.components);
                    Event::Done
                }
                _ => Disk::refused(),
            },
            Action::Next => Event::Done,
        }
    }

    /// The entries at and under `root`, each directory before what lies in it.
    fn walk(&self, root: &[&str]) -> Vec<Object> {
        let base = path(root);
        let mut found = Vec::new();
        for (key, node) in self.nodes.iter() {
            if key.len() >= root.len() && key[..root.len()] == Disk::key(root)[..] {
                let kind = match node {
                    Node::Directory => EntryKind::Directory,
                    Node::File(_) => EntryKind::File,
                };
                found.push(Object::new(&base, TreePath::from_components(key.clone()), kind));
            }
        }
        found
    }
}

/// Runs the engine over `walk` on `disk`: the lines reported, and how the run ended.
fn run(opts: Opts, walk: Vec<Object>, disk: &mut Disk) -> (Vec<String>, Result<(), SyncError>) {
    let mut lines = Vec::new();
    let mut engine = Engine::new(opts);
    for object in walk {
        let mut outcome = engine.begin(object);
        loop {
            match outcome {
                Err(error) => return (lines, Err(error)),
                Ok((next, step)) => {
                    if let Some(report) = step.report {
                        lines.push(report.line());
                    }
                    match step.action {
                        Action::Next => {
                            engine = next;
                            break;
                        }
                        action => {
                            let event = disk.respond(action);
                            outcome = next.resume(event);
                        }
                    }
                }
            }
        }
    }
    (lines, Ok(()))
}

fn example_source() -> Disk {
    Disk::new()
        .with_directory(&["src"])
        .with_file(&["src", "a.txt"], b"hi")
        .with_file(&["src", ".secret"], b"x")
        .with_directory(&["src", "sub"])
        .with_file(&["src", "sub", "b.txt"], b"yo")
}

#[test]
fn mirrors_the_example_tree_into_an_empty_destination() {
    let mut disk = example_source().with_directory(&["dst"]);
    let walk = disk.walk(&["src"]);
    let (lines, end) = run(opts(false, false), walk, &mut disk);
    assert_eq!(end, Ok(()));
    assert_eq!(disk.get(&["dst", "a.txt"]), Some(&Node::File(b"hi".to_vec())));
    assert_eq!(disk.get(&["dst", "sub"]), Some(&Node::Directory));
    assert_eq!(disk.get(&["dst", "sub", "b.txt"]), Some(&Node::File(b"yo".to_vec())));
    assert_eq!(disk.get(&["dst", ".secret"]), None);
    assert_eq!(disk.get(&["src", "a.txt"]), Some(&Node::File(b"hi".to_vec())));
    assert_eq!(disk.get(&["src", ".secret"]), Some(&Node::File(b"x".to_vec())));
    assert_eq!(disk.get(&["src", "sub", "b.txt"]), Some(&Node::File(b"yo".to_vec())));
    assert_eq!(lines, vec!["copied a.txt", "created sub", "copied sub/b.txt"]);
    let created = lines.iter().position(|l| l == "created sub").unwrap();
    let copied = lines.iter().position(|l| l == "copied sub/b.txt").unwrap();
    assert!(created < copied);
}

#[test]
fn removes_sources_that_are_already_in_place() {
    let mut disk = example_source()
        .with_directory(&["dst"])
        .with_file(&["dst", "a.txt"], b"hi")
        .with_directory(&["dst", "sub"])
        .with_file(&["dst", "sub", "b.txt"], b"yo");
    let walk = disk.walk(&["src"]);
    let (lines, end) = run(opts(false, true), walk, &mut disk);
    assert_eq!(end, Ok(()));
    assert_eq!(lines, vec!["exists a.txt", "exists sub/b.txt"]);
    assert_eq!(disk.get(&["src", "a.txt"]), None);
    assert_eq!(disk.get(&["src", "sub", "b.txt"]), None);
    assert_eq!(disk.get(&["src", ".secret"]), Some(&Node::File(b"x".to_vec())));
    assert_eq!(disk.get(&["dst", "a.txt"]), Some(&Node::File(b"hi".to_vec())));
    assert_eq!(disk.get(&["dst", "sub", "b.txt"]), Some(&Node::File(b"yo".to_vec())));
    assert_eq!(disk.copies, 0);
}

#[test]
fn truncated_copy_ends_the_run_with_both_paths() {
    let mut disk = example_source().with_directory(&["dst"]);
    disk.truncating = true;
    let walk = disk.walk(&["src"]);
    let (lines, end) = run(opts(false, false), walk, &mut disk);
    assert_eq!(
        end,
        Err(SyncError::BadCopy(BadCopy::new(path(&["src", "a.txt"]), path(&["dst", "a.txt"]))))
    );
    assert!(lines.is_empty());
    assert_eq!(disk.copies, 1);
    assert_eq!(disk.get(&["dst", "sub"]), None);
    assert_eq!(disk.get(&["dst", "sub", "b.txt"]), None);
}

#[test]
fn second_run_reports_every_file_as_existing() {
    let mut disk = example_source().with_directory(&["dst"]);
    let walk = disk.walk(&["src"]);
    let (_, first) = run(opts(true, false), walk, &mut disk);
    assert_eq!(first, Ok(()));
    let after_first = disk.clone();
    let walk = disk.walk(&["src"]);
    let (lines, second) = run(opts(true, false), walk, &mut disk);
    assert_eq!(second, Ok(()));
    assert_eq!(lines, vec!["exists .secret", "exists a.txt", "exists sub/b.txt"]);
    assert_eq!(disk, after_first);
}

#[test]
fn differing_destination_file_is_overwritten() {
    let mut disk = example_source().with_directory(&["dst"]).with_file(&["dst", "a.txt"], b"old");
    let walk = disk.walk(&["src"]);
    let (lines, end) = run(opts(false, false), walk, &mut disk);
    assert_eq!(end, Ok(()));
    assert_eq!(disk.get(&["dst", "a.txt"]), Some(&Node::File(b"hi".to_vec())));
    assert!(lines.contains(&"copied a.txt".to_string()));
}

#[test]
fn hidden_entries_and_what_lies_under_them_stay_out() {
    let mut disk = example_source()
        .with_directory(&["src", ".git"])
        .with_file(&["src", ".git", "config"], b"c")
        .with_directory(&["dst"]);
    let walk = disk.walk(&["src"]);
    let (lines, end) = run(opts(false, false), walk, &mut disk);
    assert_eq!(end, Ok(()));
    assert_eq!(disk.get(&["dst", ".git"]), None);
    assert_eq!(disk.get(&["dst", ".git", "config"]), None);
    assert_eq!(disk.get(&["dst", ".secret"]), None);
    assert_eq!(lines, vec!["copied a.txt", "created sub", "copied sub/b.txt"]);
}

#[test]
fn hidden_entries_come_along_when_wanted() {
    let mut disk = example_source()
        .with_directory(&["src", ".git"])
        .with_file(&["src", ".git", "config"], b"c")
        .with_directory(&["dst"]);
    let walk = disk.walk(&["src"]);
    let (lines, end) = run(opts(true, false), walk, &mut disk);
    assert_eq!(end, Ok(()));
    assert_eq!(disk.get(&["dst", ".git"]), Some(&Node::Directory));
    assert_eq!(disk.get(&["dst", ".git", "config"]), Some(&Node::File(b"c".to_vec())));
    assert_eq!(disk.get(&["dst", ".secret"]), Some(&Node::File(b"x".to_vec())));
    assert_eq!(
        lines,
        vec![
            "created .git",
            "copied .git/config",
            "copied .secret",
            "copied a.txt",
            "created sub",
            "copied sub/b.txt",
        ]
    );
}

#[test]
fn remove_after_copy_deletes_the_source() {
    let mut disk = example_source().with_directory(&["dst"]);
    let walk = disk.walk(&["src"]);
    let (lines, end) = run(opts(false, true), walk, &mut disk);
    assert_eq!(end, Ok(()));
    assert_eq!(lines, vec!["copied a.txt", "created sub", "copied sub/b.txt"]);
    assert_eq!(disk.get(&["src", "a.txt"]), None);
    assert_eq!(disk.get(&["src", "sub", "b.txt"]), None);
    assert_eq!(disk.get(&["src", "sub"]), Some(&Node::Directory));
    assert_eq!(disk.get(&["dst", "a.txt"]), Some(&Node::File(b"hi".to_vec())));
}

#[test]
fn missing_destination_root_is_created() {
    let mut disk = example_source();
    let walk = disk.walk(&["src"]);
    let (lines, end) = run(opts(false, false), walk, &mut disk);
    assert_eq!(end, Ok(()));
    assert_eq!(lines, vec!["created ", "copied a.txt", "created sub", "copied sub/b.txt"]);
    assert_eq!(disk.get(&["dst"]), Some(&Node::Directory));
}

#[test]
fn refusal_of_the_file_system_ends_the_run() {
    let mut disk = Disk::new().with_directory(&["src"]).with_directory(&["dst"]);
    let walk = vec![directory(&[]), file(&["gone.txt"]), file(&["later.txt"])];
    let (lines, end) = run(opts(false, false), walk, &mut disk);
    assert_eq!(end, Err(SyncError::Io("refused".to_string())));
    assert!(lines.is_empty());
}

#[test]
fn begin_asks_to_probe_the_destination_of_a_directory() {
    let (engine, report, action) = asks(Engine::new(opts(false, false)).begin(directory(&["sub"])));
    assert_eq!(report, None);
    assert_eq!(action, Action::Probe { path: path(&["dst", "sub"]) });
    assert!(!engine.is_idle());
    let (engine, report, action) = asks(engine.resume(Event::Exists(false)));
    assert_eq!(report, None);
    assert_eq!(action, Action::CreateDirectory { path: path(&["dst", "sub"]) });
    let (engine, report, action) = asks(engine.resume(Event::Done));
    assert_eq!(
        report,
        Some(Report { kind: ReportKind::Created, relative_path: path(&["sub"]) })
    );
    assert_eq!(action, Action::Next);
    assert!(engine.is_idle());
}

#[test]
fn existing_directory_is_passed_over_in_silence() {
    let (engine, _, _) = asks(Engine::new(opts(false, false)).begin(directory(&["sub"])));
    let (engine, report, action) = asks(engine.resume(Event::Exists(true)));
    assert_eq!(report, None);
    assert_eq!(action, Action::Next);
    assert_eq!(engine.phase, Phase::Idle);
}

#[test]
fn file_is_fingerprinted_before_the_destination_is_probed() {
    let (engine, _, action) = asks(Engine::new(opts(false, false)).begin(file(&["a.txt"])));
    assert_eq!(action, Action::Fingerprint { path: path(&["src", "a.txt"]) });
    let (engine, _, action) = asks(engine.resume(Event::Fingerprint(print(b"hi"))));
    assert_eq!(action, Action::Probe { path: path(&["dst", "a.txt"]) });
    let (engine, _, action) = asks(engine.resume(Event::Exists(false)));
    assert_eq!(
        action,
        Action::Copy { source: path(&["src", "a.txt"]), destination: path(&["dst", "a.txt"]) }
    );
    let (engine, _, action) = asks(engine.resume(Event::Done));
    assert_eq!(action, Action::Fingerprint { path: path(&["dst", "a.txt"]) });
    let (engine, report, action) = asks(engine.resume(Event::Fingerprint(print(b"hi"))));
    assert_eq!(
        report,
        Some(Report { kind: ReportKind::Copied, relative_path: path(&["a.txt"]) })
    );
    assert_eq!(action, Action::Next);
    assert!(engine.is_idle());
}

#[test]
fn equal_fingerprints_mean_no_copy() {
    let (engine, _, _) = asks(Engine::new(opts(false, true)).begin(file(&["a.txt"])));
    let (engine, _, _) = asks(engine.resume(Event::Fingerprint(print(b"hi"))));
    let (engine, _, action) = asks(engine.resume(Event::Exists(true)));
    assert_eq!(action, Action::Fingerprint { path: path(&["dst", "a.txt"]) });
    let (engine, report, action) = asks(engine.resume(Event::Fingerprint(print(b"hi"))));
    assert_eq!(
        report,
        Some(Report { kind: ReportKind::Exists, relative_path: path(&["a.txt"]) })
    );
    assert_eq!(action, Action::Remove { path: path(&["src", "a.txt"]) });
    let (engine, report, action) = asks(engine.resume(Event::Done));
    assert_eq!(report, None);
    assert_eq!(action, Action::Next);
    assert!(engine.is_idle());
}

#[test]
fn different_fingerprints_mean_a_copy() {
    let (engine, _, _) = asks(Engine::new(opts(false, false)).begin(file(&["a.txt"])));
    let (engine, _, _) = asks(engine.resume(Event::Fingerprint(print(b"hi"))));
    let (engine, _, _) = asks(engine.resume(Event::Exists(true)));
    let (_, report, action) = asks(engine.resume(Event::Fingerprint(print(b"ho"))));
    assert_eq!(report, None);
    assert_eq!(
        action,
        Action::Copy { source: path(&["src", "a.txt"]), destination: path(&["dst", "a.txt"]) }
    );
}

#[test]
fn copy_onto_itself_is_refused() {
    let same = Opts {
        source: path(&["src"]),
        destination: path(&["src"]),
        include_hidden_files: false,
        remove_copied_files: false,
    };
    let (engine, _, _) = asks(Engine::new(same).begin(file(&["a.txt"])));
    let (engine, _, _) = asks(engine.resume(Event::Fingerprint(print(b"hi"))));
    let error = fails(engine.resume(Event::Exists(false)));
    assert_eq!(error, SyncError::CopyToSelf);
    assert_eq!(error.message(), "attempt to copy to self");
}

#[test]
fn copy_to_gives_the_copy_or_the_refusal() {
    let object = file(&["a.txt"]);
    assert_eq!(
        object.copy_to(&path(&["dst", "a.txt"])),
        Ok(Action::Copy { source: path(&["src", "a.txt"]), destination: path(&["dst", "a.txt"]) })
    );
    assert_eq!(object.copy_to(&path(&["src", "a.txt"])), Err(SyncError::CopyToSelf));
}

#[test]
fn mismatch_after_copy_is_a_bad_copy() {
    let (engine, _, _) = asks(Engine::new(opts(false, true)).begin(file(&["sub", "b.txt"])));
    let (engine, _, _) = asks(engine.resume(Event::Fingerprint(print(b"yo"))));
    let (engine, _, _) = asks(engine.resume(Event::Exists(false)));
    let (engine, _, _) = asks(engine.resume(Event::Done));
    let error = fails(engine.resume(Event::Fingerprint(print(b"y"))));
    assert_eq!(
        error,
        SyncError::BadCopy(BadCopy {
            source: path(&["src", "sub", "b.txt"]),
            destination: path(&["dst", "sub", "b.txt"]),
        })
    );
    assert_eq!(
        error.message(),
        "bad copy:\n  source: src/sub/b.txt\n  destination: dst/sub/b.txt\n"
    );
}

#[test]
fn failed_event_carries_the_text_of_the_file_system() {
    let (engine, _, _) = asks(Engine::new(opts(false, false)).begin(file(&["a.txt"])));
    let error = fails(engine.resume(Event::Failed("No such file or directory".to_string())));
    assert_eq!(error, SyncError::Io("No such file or directory".to_string()));
    assert_eq!(error.message(), "No such file or directory");
}

#[test]
fn event_of_the_wrong_kind_is_unexpected() {
    let (engine, _, _) = asks(Engine::new(opts(false, false)).begin(file(&["a.txt"])));
    assert_eq!(fails(engine.resume(Event::Done)), SyncError::Unexpected);
    assert_eq!(
        fails(Engine::new(opts(false, false)).resume(Event::Done)),
        SyncError::Unexpected
    );
    let (engine, _, _) = asks(Engine::new(opts(false, false)).begin(directory(&["sub"])));
    assert_eq!(fails(engine.begin(file(&["a.txt"]))), SyncError::Unexpected);
    assert_eq!(SyncError::Unexpected.message(), "unexpected event");
}

#[test]
fn other_kinds_are_passed_over() {
    let object = Object::new(&path(&["src"]), path(&["src", "link"]), EntryKind::Other);
    let (engine, report, action) = asks(Engine::new(opts(false, false)).begin(object));
    assert_eq!(report, None);
    assert_eq!(action, Action::Next);
    assert!(engine.is_idle());
}

#[test]
fn hidden_entry_is_passed_over_unless_wanted() {
    let (engine, report, action) = asks(Engine::new(opts(false, false)).begin(file(&[".secret"])));
    assert_eq!((report, action), (None, Action::Next));
    assert!(engine.is_idle());
    let (_, _, action) = asks(Engine::new(opts(false, false)).begin(file(&[".git", "config"])));
    assert_eq!(action, Action::Next);
    let (_, _, action) = asks(Engine::new(opts(true, false)).begin(file(&[".secret"])));
    assert_eq!(action, Action::Fingerprint { path: path(&["src", ".secret"]) });
}

#[test]
fn object_keeps_what_follows_the_base() {
    let object = Object::new(&path(&["src"]), path(&["src", "sub", "b.txt"]), EntryKind::File);
    assert_eq!(object.file_type, EntryKind::File);
    assert_eq!(object.absolute_path, path(&["src", "sub", "b.txt"]));
    assert_eq!(object.relative_path, path(&["sub", "b.txt"]));
    let root = Object::new(&path(&["src"]), path(&["src"]), EntryKind::Directory);
    assert_eq!(root.relative_path, TreePath::new());
}

#[test]
fn opts_hand_out_the_destination_root() {
    assert_eq!(opts(false, false).destination(), &path(&["dst"]));
}

#[test]
fn report_lines_name_the_kind_and_the_path() {
    let report = |kind| Report { kind, relative_path: path(&["sub", "b.txt"]) };
    assert_eq!(report(ReportKind::Created).line(), "created sub/b.txt");
    assert_eq!(report(ReportKind::Exists).line(), "exists sub/b.txt");
    assert_eq!(report(ReportKind::Copied).line(), "copied sub/b.txt");
}

#[test]
fn fingerprints_compare_by_their_bytes() {
    assert!(print(b"abc").same_as(&print(b"abc")));
    assert!(!print(b"abc").same_as(&print(b"abd")));
    assert!(!print(b"abc").same_as(&print(b"xbc")));
    assert!(!print(b"abc").same_as(&print(b"ab")));
    assert!(print(b"").same_as(&print(b"")));
    assert_eq!(print(b"abc").clone(), print(b"abc"));
}

#[test]
fn walker_is_told_to_stay_out_of_hidden_entries() {
    let plain = opts(false, false);
    assert!(plain.admits(0, ".src"));
    assert!(plain.admits(1, "a.txt"));
    assert!(!plain.admits(1, ".secret"));
    assert!(!plain.admits(3, ".git"));
    let all = opts(true, false);
    assert!(all.admits(1, ".secret"));
    assert_eq!(plain.clone(), plain);
}

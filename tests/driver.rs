use persist_make::driver::{Action, Walk};
use persist_make::error::MaterializeError;
use persist_make::materialize::{EntryKind, EntryMeta, Op, ReadFailure};

fn b(s: &str) -> Vec<u8> {
    s.as_bytes().to_vec()
}

fn meta(kind: EntryKind, uid: u32, gid: u32, mode: u32) -> EntryMeta {
    EntryMeta { kind, uid, gid, mode }
}

/// Drives a walk against a source tree given as (path, metadata) entries,
/// recording each operation; `fail_op` names an operation to report failed.
fn drive(
    source: &[(&str, EntryMeta)],
    path: &str,
    fail_op: Option<Op>,
) -> (Vec<Op>, Vec<Vec<u8>>, Result<(), MaterializeError>) {
    let (mut walk, mut action) = Walk::new(&b("/src"), &b("/dst"), &b(path)).unwrap();
    let mut ops = Vec::new();
    let mut inspected = Vec::new();
    loop {
        action = match action {
            Action::Inspect(p) => {
                inspected.push(p.clone());
                let read = match source.iter().find(|(s, _)| b(s) == p) {
                    Some((_, m)) => Ok(*m),
                    None => Err(ReadFailure::NotFound),
                };
                walk.on_inspected(read)
            }
            Action::Apply(op) => {
                let ok = Some(&op) != fail_op.as_ref();
                ops.push(op);
                walk.on_applied(ok)
            }
            Action::Finish(outcome) => return (ops, inspected, outcome),
        };
    }
}

fn scenario_source() -> Vec<(&'static str, EntryMeta)> {
    vec![
        ("/src/a", meta(EntryKind::Directory, 1000, 1000, 0o755)),
        ("/src/a/b", meta(EntryKind::Directory, 1000, 1000, 0o700)),
        ("/src/a/b/c.txt", meta(EntryKind::File, 1000, 1000, 0o644)),
    ]
}

#[test]
fn walk_mirrors_every_prefix_in_order() {
    let (ops, inspected, outcome) = drive(&scenario_source(), "/a/b/c.txt", None);
    assert_eq!(outcome, Ok(()));
    assert_eq!(inspected, vec![b("/src/a"), b("/src/a/b"), b("/src/a/b/c.txt")]);
    assert_eq!(
        ops,
        vec![
            Op::CreateDirAll(b("/dst/a")),
            Op::Chown(b("/dst/a"), 1000, 1000),
            Op::Chmod(b("/dst/a"), 0o755),
            Op::CreateDirAll(b("/dst/a/b")),
            Op::Chown(b("/dst/a/b"), 1000, 1000),
            Op::Chmod(b("/dst/a/b"), 0o700),
            Op::CreateFile(b("/dst/a/b/c.txt")),
            Op::Chown(b("/dst/a/b/c.txt"), 1000, 1000),
            Op::Chmod(b("/dst/a/b/c.txt"), 0o644),
        ]
    );
}

#[test]
fn walk_twice_asks_the_same() {
    let first = drive(&scenario_source(), "/a/b/c.txt", None);
    let second = drive(&scenario_source(), "/a/b/c.txt", None);
    assert_eq!(first, second);
    assert_eq!(second.2, Ok(()));
}

#[test]
fn walk_of_missing_source_touches_nothing() {
    let (ops, inspected, outcome) = drive(&[], "/a", None);
    assert_eq!(inspected, vec![b("/src/a")]);
    assert!(ops.is_empty());
    assert_eq!(outcome, Err(MaterializeError::SourceNotFound(b("/src/a"))));
}

#[test]
fn walk_stops_at_symbolic_link() {
    let source = vec![
        ("/src/a", meta(EntryKind::Directory, 0, 0, 0o755)),
        ("/src/a/link", meta(EntryKind::Other, 0, 0, 0o777)),
        ("/src/a/link/x", meta(EntryKind::File, 0, 0, 0o644)),
    ];
    let (ops, inspected, outcome) = drive(&source, "/a/link/x", None);
    assert_eq!(outcome, Err(MaterializeError::UnsupportedEntryKind(b("/src/a/link"))));
    assert_eq!(inspected, vec![b("/src/a"), b("/src/a/link")]);
    assert!(ops.iter().all(|op| !matches!(op, Op::CreateDirAll(p) | Op::CreateFile(p) if p.starts_with(b"/dst/a/link"))));
    assert_eq!(ops.len(), 3);
}

#[test]
fn walk_single_component_takes_one_step() {
    let source = vec![("/src/a", meta(EntryKind::File, 5, 6, 0o600))];
    let (ops, inspected, outcome) = drive(&source, "/a", None);
    assert_eq!(outcome, Ok(()));
    assert_eq!(inspected.len(), 1);
    assert_eq!(ops, vec![Op::CreateFile(b("/dst/a")), Op::Chown(b("/dst/a"), 5, 6), Op::Chmod(b("/dst/a"), 0o600)]);
}

#[test]
fn walk_of_root_finishes_at_once() {
    let (walk, action) = Walk::new(&b("/src"), &b("/dst"), &b("/")).unwrap();
    assert!(walk.finished);
    assert_eq!(action, Action::Finish(Ok(())));
}

#[test]
fn walk_refuses_unrooted_path() {
    assert_eq!(Walk::new(&b("/src"), &b("/dst"), &b("a")).unwrap_err(), MaterializeError::NotRooted(b("a")));
}

#[test]
fn walk_stops_at_failed_chown() {
    let (ops, _, outcome) = drive(&scenario_source(), "/a/b/c.txt", Some(Op::Chown(b("/dst/a/b"), 1000, 1000)));
    assert_eq!(outcome, Err(MaterializeError::OwnershipError(b("/dst/a/b"))));
    assert_eq!(ops.len(), 5);
}

#[test]
fn walk_stops_at_failed_create_and_chmod() {
    let (ops, _, outcome) = drive(&scenario_source(), "/a/b/c.txt", Some(Op::CreateDirAll(b("/dst/a"))));
    assert_eq!(outcome, Err(MaterializeError::CreateError(b("/dst/a"))));
    assert_eq!(ops.len(), 1);
    let (_, _, outcome) = drive(&scenario_source(), "/a/b/c.txt", Some(Op::Chmod(b("/dst/a/b/c.txt"), 0o644)));
    assert_eq!(outcome, Err(MaterializeError::PermissionSyncError(b("/dst/a/b/c.txt"))));
}

#[test]
fn walk_reports_unreadable_source() {
    let (mut walk, action) = Walk::new(&b("/src"), &b("/dst"), &b("/a")).unwrap();
    assert_eq!(action, Action::Inspect(b("/src/a")));
    assert_eq!(walk.on_inspected(Err(ReadFailure::Unreadable)), Action::Finish(Err(MaterializeError::MetadataReadError(b("/src/a")))));
    assert!(walk.finished);
}

use watch_relocate::dispatch::{DispatchTable, Intake};
use watch_relocate::event::{normalize_event, EventKind, ObservedPath};
use watch_relocate::path::{bytes_equal, create_dest_path_from_relative, AbsPath, RelPath};
use watch_relocate::worker::{Action, Outcome, Relocation, Stage};

fn parts(s: &str) -> Vec<Vec<u8>> {
    s.split('/').filter(|c| !c.is_empty()).map(|c| c.as_bytes().to_vec()).collect()
}

fn abs(s: &str) -> AbsPath {
    AbsPath::new(parts(s))
}

fn rel(s: &str) -> RelPath {
    RelPath::new(parts(s))
}

fn observed(s: &str, is_file: bool) -> ObservedPath {
    ObservedPath { path: abs(s), is_file }
}

#[test]
fn relative_path_strips_watch_root() {
    let r = abs("/src/x/y.txt").relative_to(&abs("/src")).unwrap();
    assert_eq!(r.parts, parts("x/y.txt"));
}

#[test]
fn relative_path_of_watch_root_itself_is_dropped() {
    assert!(abs("/src").relative_to(&abs("/src")).is_none());
}

#[test]
fn relative_path_outside_watch_root_is_dropped() {
    assert!(abs("/other/y.txt").relative_to(&abs("/src")).is_none());
    assert!(abs("/srcx/y.txt").relative_to(&abs("/src")).is_none());
    assert!(abs("/").relative_to(&abs("/src")).is_none());
}

#[test]
fn relative_path_under_filesystem_root() {
    let r = abs("/a/b").relative_to(&abs("/")).unwrap();
    assert_eq!(r.parts, parts("a/b"));
}

#[test]
fn dest_path_joins_relative_path() {
    let d = create_dest_path_from_relative(&rel("a/b/c.txt"), &abs("/dst"));
    assert_eq!(d.parts, parts("/dst/a/b/c.txt"));
}

#[test]
fn parent_drops_last_component() {
    assert_eq!(abs("/dst/a/b/c.txt").parent().unwrap().parts, parts("/dst/a/b"));
    assert!(abs("/").parent().is_none());
}

#[test]
fn byte_strings_compare_by_content() {
    assert!(bytes_equal(&b"abc".to_vec(), &b"abc".to_vec()));
    assert!(!bytes_equal(&b"abc".to_vec(), &b"abd".to_vec()));
    assert!(!bytes_equal(&b"ab".to_vec(), &b"abc".to_vec()));
    assert!(rel("x/y").same_as(&rel("x/y")));
    assert!(!rel("x/y").same_as(&rel("x")));
}

#[test]
fn creation_event_yields_relative_files() {
    let ps = vec![observed("/src/x/y.txt", true), observed("/src/z", true)];
    let out = normalize_event(&abs("/src"), EventKind::Created, &ps);
    assert_eq!(out.len(), 2);
    assert_eq!(out[0].parts, parts("x/y.txt"));
    assert_eq!(out[1].parts, parts("z"));
}

#[test]
fn directory_creation_is_ignored() {
    let ps = vec![observed("/src/newdir", false)];
    assert!(normalize_event(&abs("/src"), EventKind::Created, &ps).is_empty());
}

#[test]
fn other_event_kinds_are_ignored() {
    let ps = vec![observed("/src/a.txt", true)];
    for kind in [EventKind::Modified, EventKind::Removed, EventKind::Other] {
        assert!(normalize_event(&abs("/src"), kind, &ps).is_empty());
    }
}

#[test]
fn root_and_outside_paths_are_dropped_from_events() {
    let ps = vec![
        observed("/src", true),
        observed("/elsewhere/a.txt", true),
        observed("/src/dir", false),
        observed("/src/keep.txt", true),
    ];
    let out = normalize_event(&abs("/src"), EventKind::Created, &ps);
    assert_eq!(out.len(), 1);
    assert_eq!(out[0].parts, parts("keep.txt"));
}

#[test]
fn duplicate_discovery_starts_one_worker() {
    let mut table = DispatchTable::new();
    let first = table.handle(Intake::Discovered(rel("docs/report.txt")));
    assert_eq!(first.unwrap().parts, parts("docs/report.txt"));
    let second = table.handle(Intake::Discovered(rel("docs/report.txt")));
    assert!(second.is_none());
    assert_eq!(table.len(), 1);
}

#[test]
fn many_discoveries_start_one_worker_per_path() {
    let mut table = DispatchTable::new();
    let mut started = 0;
    for _ in 0..5 {
        if table.handle(Intake::Discovered(rel("a.txt"))).is_some() {
            started += 1;
        }
    }
    if table.handle(Intake::Discovered(rel("b.txt"))).is_some() {
        started += 1;
    }
    assert_eq!(started, 2);
    assert!(table.contains(&rel("a.txt")));
    assert!(table.contains(&rel("b.txt")));
    assert!(!table.contains(&rel("c.txt")));
}

#[test]
fn finished_path_can_be_dispatched_again() {
    let mut table = DispatchTable::new();
    assert!(table.handle(Intake::Discovered(rel("a.txt"))).is_some());
    assert!(table.handle(Intake::Finished(rel("a.txt"))).is_none());
    assert!(!table.contains(&rel("a.txt")));
    assert_eq!(table.len(), 0);
    assert!(table.handle(Intake::Discovered(rel("a.txt"))).is_some());
}

#[test]
fn take_in_and_release_report_membership() {
    let mut table = DispatchTable::new();
    assert!(table.take_in(rel("a")));
    assert!(!table.take_in(rel("a")));
    assert!(!table.release(&rel("b")));
    assert!(table.release(&rel("a")));
    assert!(!table.release(&rel("a")));
}

#[test]
fn relocation_makes_directories_before_copying() {
    let mut r = Relocation::new(&abs("/src"), &abs("/dst"), &rel("a/b/c.txt"));
    match r.action() {
        Action::CreateDirs(d) => assert_eq!(d.parts, parts("/dst/a/b")),
        other => panic!("unexpected {:?}", other),
    }
    r.report(true);
    match r.action() {
        Action::Copy(from, to) => {
            assert_eq!(from.parts, parts("/src/a/b/c.txt"));
            assert_eq!(to.parts, parts("/dst/a/b/c.txt"));
        }
        other => panic!("unexpected {:?}", other),
    }
}

#[test]
fn failed_copy_keeps_source() {
    let mut r = Relocation::new(&abs("/src"), &abs("/dst"), &rel("f.txt"));
    r.report(true);
    r.report(false);
    assert_eq!(r.current_stage(), Stage::Done(Outcome::CopyFailed));
    assert!(matches!(r.action(), Action::Finish(Outcome::CopyFailed)));
}

#[test]
fn failed_directories_skip_copy() {
    let mut r = Relocation::new(&abs("/src"), &abs("/dst"), &rel("d/f.txt"));
    r.report(false);
    assert!(matches!(r.action(), Action::Finish(Outcome::DirsFailed)));
}

#[test]
fn failed_removal_is_reported() {
    let mut r = Relocation::new(&abs("/src"), &abs("/dst"), &rel("f.txt"));
    r.report(true);
    r.report(true);
    match r.action() {
        Action::Remove(p) => assert_eq!(p.parts, parts("/src/f.txt")),
        other => panic!("unexpected {:?}", other),
    }
    r.report(false);
    assert!(matches!(r.action(), Action::Finish(Outcome::RemoveFailed)));
}

#[test]
fn end_to_end_report_is_moved() {
    let root = abs("/src");
    let dest = abs("/dst");
    let ps = vec![observed("/src/docs/report.txt", true)];
    let found = normalize_event(&root, EventKind::Created, &ps);
    assert_eq!(found.len(), 1);
    let mut table = DispatchTable::new();
    let p = table.handle(Intake::Discovered(found[0].clone())).unwrap();
    let mut r = Relocation::new(&root, &dest, &p);
    let mut seen = Vec::new();
    loop {
        match r.action() {
            Action::Finish(o) => {
                assert_eq!(o, Outcome::Moved);
                break;
            }
            Action::CreateDirs(d) => seen.push(("mkdir", d.parts, Vec::new())),
            Action::Copy(a, b) => seen.push(("copy", a.parts, b.parts)),
            Action::Remove(a) => seen.push(("remove", a.parts, Vec::new())),
        }
        r.report(true);
    }
    assert_eq!(
        seen,
        vec![
            ("mkdir", parts("/dst/docs"), Vec::new()),
            ("copy", parts("/src/docs/report.txt"), parts("/dst/docs/report.txt")),
            ("remove", parts("/src/docs/report.txt"), Vec::new()),
        ]
    );
    assert!(table.handle(Intake::Finished(p)).is_none());
    assert_eq!(table.len(), 0);
}

#[test]
fn duplicate_notifications_spawn_no_second_worker() {
    let root = abs("/src");
    let ps = vec![observed("/src/a.txt", true)];
    let mut table = DispatchTable::new();
    let mut workers = 0;
    for _ in 0..2 {
        for p in normalize_event(&root, EventKind::Created, &ps) {
            if table.handle(Intake::Discovered(p)).is_some() {
                workers += 1;
            }
        }
    }
    assert_eq!(workers, 1);
}

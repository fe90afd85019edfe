use fspath::seg::Seg;
use fspath::path::FsPath;
use fspath::cache::Cache;
use fspath::resolve::{Action, Event, Resolver, StatOutcome};

fn text(s: &str) -> Seg {
    Seg::Text(String::from(s))
}

fn path(rooted: bool, segs: &[&str]) -> FsPath {
    FsPath { rooted, segs: segs.iter().map(|s| text(s)).collect() }
}

fn finish_of(a: Action) -> FsPath {
    match a {
        Action::Finish(p) => p,
        _ => panic!("expected the resolution to be finished"),
    }
}

fn dir_event(names: &[&str]) -> Event {
    Event::Dir(Some(names.iter().map(|s| text(s)).collect()))
}

#[test]
fn parse_splits_and_roots() {
    let p = fspath::path::parse_path(b"/a//b/");
    assert!(p.rooted);
    assert_eq!(p.segs, vec![text("a"), text("b")]);

    let q = fspath::path::parse_path(b"rel/x");
    assert!(!q.rooted);
    assert_eq!(q.segs, vec![text("rel"), text("x")]);

    let empty = fspath::path::parse_path(b"");
    assert!(!empty.rooted);
    assert!(empty.segs.is_empty());
}

#[test]
fn parse_keeps_non_text_names_opaque() {
    let p = fspath::path::parse_path(b"a/\xff\xfe/b");
    assert_eq!(p.segs.len(), 3);
    assert_eq!(p.segs[0], text("a"));
    assert_eq!(p.segs[1], Seg::Opaque(vec![0xff, 0xfe]));
    assert_eq!(p.segs[2], text("b"));
}

#[test]
fn fold_key_lowers_text() {
    let p = path(true, &["Srv", "Report.TXT"]);
    assert_eq!(p.fold_key(), b"/srv/report.txt".to_vec());

    let rel = path(false, &["AbC"]);
    assert_eq!(rel.fold_key(), b"abc".to_vec());
}

#[test]
fn pass_through_when_disabled() {
    let mut cache = Cache::new(16);
    let base = path(true, &["srv"]);
    let (_, act) = Resolver::start(base, b"Sub/File.TXT", false, &mut cache);
    assert_eq!(finish_of(act), path(true, &["srv", "Sub", "File.TXT"]));
}

#[test]
fn root_markers_stripped() {
    let mut cache = Cache::new(16);
    let one = Resolver::start(path(true, &["srv"]), b"/a/b", false, &mut cache).1;
    let many = Resolver::start(path(true, &["srv"]), b"//a/b", false, &mut cache).1;
    let none = Resolver::start(path(true, &["srv"]), b"a/b", false, &mut cache).1;
    let expect = path(true, &["srv", "a", "b"]);
    assert_eq!(finish_of(one), expect);
    assert_eq!(finish_of(many), expect);
    assert_eq!(finish_of(none), expect);
}

#[test]
fn exact_match_returned_immediately() {
    let mut cache = Cache::new(16);
    let (mut r, act) = Resolver::start(path(true, &["srv"]), b"Sub/File.TXT", true, &mut cache);
    let full = path(true, &["srv", "Sub", "File.TXT"]);
    match act {
        Action::Stat(p) => assert_eq!(p, full),
        _ => panic!("expected a metadata query for the whole candidate"),
    }
    let done = r.step(&mut cache, Event::Stat(true));
    assert_eq!(finish_of(done), full);
}

#[test]
fn unrooted_candidate_returned_unresolved() {
    let mut cache = Cache::new(16);
    let (_, act) = Resolver::start(path(false, &["srv"]), b"File.TXT", true, &mut cache);
    assert_eq!(finish_of(act), path(false, &["srv", "File.TXT"]));
}

#[test]
fn non_text_candidate_returned_unresolved() {
    let mut cache = Cache::new(16);
    let (_, act) = Resolver::start(path(true, &["srv"]), b"\xff\xfe", true, &mut cache);
    let p = finish_of(act);
    assert_eq!(p.segs[1], Seg::Opaque(vec![0xff, 0xfe]));
}

#[test]
fn case_recovered_from_directory_scan() {
    let mut cache = Cache::new(16);
    let (mut r, act) = Resolver::start(path(true, &["srv"]), b"report.txt", true, &mut cache);
    assert!(matches!(act, Action::Stat(_)));
    // the candidate as given does not exist
    let act = r.step(&mut cache, Event::Stat(false));
    match &act {
        Action::StatKind(p) => assert_eq!(*p, path(true, &["srv", "report.txt"])),
        _ => panic!("expected the single-segment lookup to try the exact name"),
    }
    let act = r.step(&mut cache, Event::StatKind(StatOutcome::NotFound));
    match &act {
        Action::ReadDir(d) => assert_eq!(*d, path(true, &["srv"])),
        _ => panic!("expected a directory enumeration"),
    }
    let act = r.step(&mut cache, dir_event(&["Other.dat", "Report.TXT"]));
    assert_eq!(finish_of(act), path(true, &["srv", "Report.TXT"]));
}

#[test]
fn resolving_again_serves_cached_result() {
    let mut cache = Cache::new(16);
    // first resolution recovers the case and caches the result
    let (mut r, _) = Resolver::start(path(true, &["srv"]), b"report.txt", true, &mut cache);
    let _ = r.step(&mut cache, Event::Stat(false));
    let _ = r.step(&mut cache, Event::StatKind(StatOutcome::NotFound));
    let first = finish_of(r.step(&mut cache, dir_event(&["Report.TXT"])));
    // the second resolution of the same input finds it in the cache
    let (mut r2, act) = Resolver::start(path(true, &["srv"]), b"report.txt", true, &mut cache);
    match act {
        Action::Stat(p) => assert_eq!(p, first),
        _ => panic!("expected validation of the cached path"),
    }
    let second = finish_of(r2.step(&mut cache, Event::Stat(true)));
    assert_eq!(second, first);
    assert_eq!(first, path(true, &["srv", "Report.TXT"]));
}

#[test]
fn sibling_reuses_cached_parent() {
    let mut cache = Cache::new(16);
    // walk the whole path once: /srv + dir1/dir2/file
    let (mut r, _) = Resolver::start(path(true, &["srv"]), b"dir1/dir2/file", true, &mut cache);
    let mut scans: usize = 0;
    let _ = r.step(&mut cache, Event::Stat(false));  // full candidate absent
    let _ = r.step(&mut cache, Event::Stat(false));  // parent not known yet
    // the walk enumerates every directory on the way down
    scans += 1;
    let _ = r.step(&mut cache, dir_event(&["Dir1"]));
    scans += 1;
    let _ = r.step(&mut cache, dir_event(&["Dir2"]));
    scans += 1;
    let act = r.step(&mut cache, dir_event(&["File"]));
    assert_eq!(finish_of(act), path(true, &["srv", "Dir1", "Dir2", "File"]));
    assert_eq!(scans, 3);

    // a sibling under the same parent: only one enumeration is needed
    let (mut r2, act) = Resolver::start(path(true, &["srv"]), b"dir1/dir2/other", true, &mut cache);
    assert!(matches!(act, Action::Stat(_)));
    let act = r2.step(&mut cache, Event::Stat(false));
    match &act {
        // the cached, case-corrected parent is validated, not re-walked
        Action::Stat(p) => assert_eq!(*p, path(true, &["srv", "Dir1", "Dir2"])),
        _ => panic!("expected validation of the cached parent"),
    }
    let act = r2.step(&mut cache, Event::Stat(true));
    assert!(matches!(act, Action::StatKind(_)));
    let act = r2.step(&mut cache, Event::StatKind(StatOutcome::NotFound));
    let mut sibling_scans: usize = 0;
    match &act {
        Action::ReadDir(d) => {
            sibling_scans += 1;
            assert_eq!(*d, path(true, &["srv", "Dir1", "Dir2"]));
        },
        _ => panic!("expected one directory enumeration"),
    }
    let act = r2.step(&mut cache, dir_event(&["Other"]));
    assert_eq!(finish_of(act), path(true, &["srv", "Dir1", "Dir2", "Other"]));
    assert_eq!(sibling_scans, 1);
}

#[test]
fn unreadable_directory_is_terminal() {
    let mut cache = Cache::new(16);
    let (mut r, _) = Resolver::start(path(true, &["srv"]), b"a/b/c", true, &mut cache);
    let _ = r.step(&mut cache, Event::Stat(false));
    let _ = r.step(&mut cache, Event::Stat(false));
    // the first directory of the walk cannot be read: everything left is
    // appended verbatim and nothing is cached
    let act = r.step(&mut cache, Event::Dir(None));
    let p = finish_of(act);
    assert_eq!(p, path(true, &["srv", "a", "b", "c"]));
    assert!(cache.get(&p).is_none());
    assert!(cache.get(&path(true, &["srv", "a"])).is_none());
}

#[test]
fn failed_metadata_is_terminal() {
    let mut cache = Cache::new(16);
    let (mut r, _) = Resolver::start(path(true, &["srv"]), b"file", true, &mut cache);
    let _ = r.step(&mut cache, Event::Stat(false));
    // the exact-name query fails with something else than not-found
    let act = r.step(&mut cache, Event::StatKind(StatOutcome::Failed));
    let p = finish_of(act);
    assert_eq!(p, path(true, &["srv", "file"]));
    assert!(cache.get(&p).is_none());
}

#[test]
fn unresolvable_path_degrades_to_concatenation() {
    let mut cache = Cache::new(16);
    let (mut r, _) = Resolver::start(path(true, &["srv"]), b"a/b", true, &mut cache);
    let _ = r.step(&mut cache, Event::Stat(false));
    let _ = r.step(&mut cache, Event::Stat(false));
    // nothing in the directory folds to "a"
    let act = r.step(&mut cache, dir_event(&["x", "y"]));
    assert_eq!(finish_of(act), path(true, &["srv", "a", "b"]));
}

#[test]
fn opaque_segment_stops_case_matching() {
    // base itself carries a non-text segment, so the whole candidate is
    // returned as it is, without any filesystem query
    let mut cache = Cache::new(16);
    let base = FsPath { rooted: true, segs: vec![Seg::Opaque(vec![0xff])] };
    let (_, act) = Resolver::start(base, b"file", true, &mut cache);
    let p = finish_of(act);
    assert_eq!(p.segs.len(), 2);
}

#[test]
fn stale_cached_entry_evicted_and_resolution_continues() {
    let mut cache = Cache::new(16);
    let exact = path(true, &["srv", "Old.TXT"]);
    cache.insert(&exact);
    let (mut r, act) = Resolver::start(path(true, &["srv"]), b"old.txt", true, &mut cache);
    match act {
        Action::Stat(p) => assert_eq!(p, exact),
        _ => panic!("expected validation of the cached path"),
    }
    // the stored path no longer exists: the entry is dropped and the
    // resolution falls back to the candidate itself
    let act = r.step(&mut cache, Event::Stat(false));
    match &act {
        Action::Stat(p) => assert_eq!(*p, path(true, &["srv", "old.txt"])),
        _ => panic!("expected a query for the verbatim candidate"),
    }
    assert!(cache.get(&exact).is_none());
    let done = r.step(&mut cache, Event::Stat(true));
    assert_eq!(finish_of(done), path(true, &["srv", "old.txt"]));
}

use fspath::seg::Seg;
use fspath::path::FsPath;
use fspath::cache::Cache;

fn text(s: &str) -> Seg {
    Seg::Text(String::from(s))
}

fn path(rooted: bool, segs: &[&str]) -> FsPath {
    FsPath { rooted, segs: segs.iter().map(|s| text(s)).collect() }
}

#[test]
fn get_finds_entry_under_folded_key() {
    let mut c = Cache::new(8);
    let exact = path(true, &["srv", "Report.TXT"]);
    c.insert(&exact);
    // any casing with the same fold finds the stored exact path
    let got = c.get(&path(true, &["SRV", "report.txt"])).expect("entry expected");
    assert_eq!(got, exact);
    assert!(c.get(&path(true, &["srv", "other"])).is_none());
}

#[test]
fn stale_entry_dropped_and_gone() {
    let mut c = Cache::new(8);
    let exact = path(true, &["srv", "gone.txt"]);
    c.insert(&exact);
    assert!(c.get(&exact).is_some());
    // the caller found the stored path no longer exists
    c.drop_stale(&exact);
    assert!(c.get(&exact).is_none());
    assert!(c.get(&path(true, &["SRV", "GONE.TXT"])).is_none());
}

#[test]
fn reinsertion_replaces_same_key() {
    let mut c = Cache::new(8);
    c.insert(&path(true, &["srv", "File.txt"]));
    c.insert(&path(true, &["srv", "FILE.TXT"]));
    let got = c.get(&path(true, &["srv", "file.txt"])).expect("entry expected");
    assert_eq!(got, path(true, &["srv", "FILE.TXT"]));
}

#[test]
fn capacity_bound_evicts() {
    let mut c = Cache::new(1);
    let a = path(true, &["a"]);
    let b = path(true, &["b"]);
    c.insert(&a);
    c.insert(&b);
    assert!(c.get(&a).is_none());
    assert_eq!(c.get(&b), Some(b.clone()));
}

#[test]
fn opaque_paths_fold_to_themselves() {
    let mut c = Cache::new(8);
    let odd = FsPath { rooted: true, segs: vec![Seg::Opaque(vec![0xff, 0x2f]), text("A")] };
    c.insert(&odd);
    assert_eq!(c.get(&odd), Some(odd.clone()));
    // the text part still folds, the opaque part only matches byte for byte
    let lower = FsPath { rooted: true, segs: vec![Seg::Opaque(vec![0xff, 0x2f]), text("a")] };
    assert_eq!(c.get(&lower), Some(odd.clone()));
    let other = FsPath { rooted: true, segs: vec![Seg::Opaque(vec![0xfe, 0x2f]), text("a")] };
    assert!(c.get(&other).is_none());
}

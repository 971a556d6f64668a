use lu_cache::cache::{
    exclude_glob, hash_to_path, include_glob, listing_prefix, names_pack, quickcheck_file_name,
    scan_target, CacheEntry, FileStatus, QuickCheck, VisitStep, Visitor,
};
use lu_cache::digest::{crc_of_text, file_line, FileMeta, FileMetaPair};
use lu_cache::file_map::FileMap;
use lu_cache::globs::GlobError;
use std::collections::BTreeMap;
use std::path::PathBuf;

fn list(items: &[&str]) -> Vec<String> {
    items.iter().map(|p| p.to_string()).collect()
}

fn meta(n: u8) -> FileMeta {
    FileMeta { size: n as u32, hash: [n; 16] }
}

fn pair(raw: u8, compressed: u8) -> FileMetaPair {
    FileMetaPair { raw: meta(raw), compressed: meta(compressed) }
}

fn visitor(wanted: &[&str], unwanted: &[&str]) -> Visitor {
    Visitor::new(
        include_glob(&list(wanted)).unwrap(),
        exclude_glob(&list(unwanted)).unwrap(),
        BTreeMap::new(),
        FileMap::new(),
        false,
        '/',
    )
}

fn remember(v: &mut Visitor, path: &str, mtime: Option<u64>, meta: FileMeta) {
    let qc = QuickCheck { path: path.to_string(), mtime, meta };
    v.quickcheck.insert(crc_of_text(path), qc);
}

fn known(v: &mut Visitor, path: &str, pair: FileMetaPair) {
    v.prev.insert(path.to_string(), file_line(path, pair));
}

#[test]
fn cache_path_with_separator() {
    assert_eq!(hash_to_path(&[0xa1; 16], '\\'), format!("a\\1\\{}.sd0", "a1".repeat(16)));
    assert_eq!(hash_to_path(&[0x0f; 16], '/'), format!("0/f/{}.sd0", "0f".repeat(16)));
}

#[test]
fn patterns_decide_what_is_visited() {
    let mut v = visitor(&["*.txt"], &["secret*"]);
    assert!(matches!(v.visit("a.dds".to_string(), None), VisitStep::Ignored));
    assert!(matches!(v.visit("secret.txt".to_string(), None), VisitStep::Ignored));
    assert!(matches!(v.visit("a.txt".to_string(), None), VisitStep::HashInput(_)));
    assert_eq!((v.stats.ignored, v.stats.total), (2, 1));
}

#[test]
fn no_patterns_take_everything() {
    let mut v = visitor(&[], &[]);
    assert!(matches!(v.visit("anything".to_string(), Some(1)), VisitStep::HashInput(_)));
    assert_eq!(v.stats.ignored, 0);
}

#[test]
fn malformed_patterns_are_refused() {
    assert!(matches!(include_glob(&list(&["{"])), Err(GlobError::Pattern { index: 0, .. })));
    assert!(matches!(exclude_glob(&list(&["a", "[", "b"])), Err(GlobError::Pattern { index: 1, .. })));
}

#[test]
fn new_file_is_hashed_probed_and_compressed() {
    let mut v = visitor(&[], &[]);
    let visit = match v.visit("a.txt".to_string(), Some(5)) {
        VisitStep::HashInput(visit) => visit,
        _ => panic!("the file had to be hashed"),
    };
    assert_eq!((visit.path.as_str(), visit.mtime), ("a.txt", Some(5)));
    let probe = match v.input_hashed(visit, Some(meta(0x12))) {
        VisitStep::ProbeCache(probe) => probe,
        _ => panic!("the cache had to be looked into"),
    };
    assert_eq!(probe.outpath, format!("1/2/{}.sd0", "12".repeat(16)));
    assert!(matches!(v.cache_probed(probe, PathBuf::from("in"), CacheEntry::Missing), VisitStep::Queued));
    assert_eq!(v.pending.len(), 1);
    assert_eq!(v.pending[0].input, PathBuf::from("in"));
    assert_eq!(v.files.len(), 0);
    let checks = v.flush_pending(vec![Some(pair(0x12, 3))]);
    assert_eq!(checks.len(), 1);
    assert_eq!((checks[0].path.as_str(), checks[0].mtime), ("a.txt", Some(5)));
    assert!(checks[0].meta.same(&meta(0x12)));
    assert!(v.pending.is_empty());
    assert_eq!(v.stats.compress, 1);
    assert_eq!(v.files.entry(0).0, "a.txt");
    assert_eq!(v.files.entry(0).1.linesum, file_line("a.txt", pair(0x12, 3)).linesum);
}

#[test]
fn compressed_file_in_the_cache_is_used_again() {
    let mut v = visitor(&[], &[]);
    known(&mut v, "a.txt", pair(9, 9));
    let visit = match v.visit("a.txt".to_string(), None) {
        VisitStep::HashInput(visit) => visit,
        _ => panic!("the file had to be hashed"),
    };
    let probe = match v.input_hashed(visit, Some(meta(1))) {
        VisitStep::ProbeCache(probe) => probe,
        _ => panic!("the cache had to be looked into"),
    };
    match v.cache_probed(probe, PathBuf::new(), CacheEntry::Found(meta(2))) {
        VisitStep::Recorded(qc) => {
            assert_eq!((qc.path.as_str(), qc.mtime), ("a.txt", None));
            assert!(qc.meta.same(&meta(1)));
        }
        _ => panic!("the file had to be recorded"),
    }
    assert_eq!((v.stats.cached_sd0, v.stats.unchanged, v.stats.total), (1, 0, 1));
    assert_eq!(v.files.entry(0).1.linesum, file_line("a.txt", pair(1, 2)).linesum);
    assert_eq!(v.prev.len(), 0);
}

#[test]
fn unchanged_file_keeps_its_record() {
    let mut v = visitor(&[], &[]);
    known(&mut v, "a.txt", pair(1, 7));
    let visit = match v.visit("a.txt".to_string(), Some(1)) {
        VisitStep::HashInput(visit) => visit,
        _ => panic!("the file had to be hashed"),
    };
    assert!(matches!(v.input_hashed(visit, Some(meta(1))), VisitStep::Recorded(_)));
    assert_eq!(v.stats.unchanged, 1);
    assert_eq!(v.files.entry(0).1.linesum, file_line("a.txt", pair(1, 7)).linesum);
}

#[test]
fn second_scan_neither_hashes_nor_compresses() {
    let mut v = visitor(&[], &[]);
    known(&mut v, "a.txt", pair(1, 7));
    remember(&mut v, "a.txt", Some(44), meta(1));
    match v.visit("a.txt".to_string(), Some(44)) {
        VisitStep::Recorded(qc) => assert!(qc.meta.same(&meta(1))),
        _ => panic!("the file had to be recorded"),
    }
    assert_eq!((v.stats.quickcheck, v.stats.unchanged, v.stats.total), (1, 1, 1));
    assert_eq!(v.files.len(), 1);
    assert!(v.pending.is_empty() && v.quickcheck.is_empty());
}

#[test]
fn modified_or_undated_files_are_hashed() {
    let mut v = visitor(&[], &[]);
    remember(&mut v, "a.txt", Some(44), meta(1));
    remember(&mut v, "b.txt", None, meta(1));
    assert!(matches!(v.visit("a.txt".to_string(), Some(45)), VisitStep::HashInput(_)));
    assert!(matches!(v.visit("b.txt".to_string(), None), VisitStep::HashInput(_)));
    assert_eq!(v.stats.quickcheck, 0);
    assert!(v.quickcheck.is_empty());
}

#[test]
fn unreadable_files_are_given_up() {
    let mut v = visitor(&[], &[]);
    known(&mut v, "a.txt", pair(1, 1));
    known(&mut v, "b.txt", pair(1, 1));
    let visit = match v.visit("a.txt".to_string(), None) {
        VisitStep::HashInput(visit) => visit,
        _ => panic!("the file had to be hashed"),
    };
    assert!(matches!(v.input_hashed(visit, None), VisitStep::Abandoned));
    assert_eq!(v.prev.len(), 2);
    let visit = match v.visit("b.txt".to_string(), None) {
        VisitStep::HashInput(visit) => visit,
        _ => panic!("the file had to be hashed"),
    };
    let probe = match v.input_hashed(visit, Some(meta(2))) {
        VisitStep::ProbeCache(probe) => probe,
        _ => panic!("the cache had to be looked into"),
    };
    assert!(matches!(v.cache_probed(probe, PathBuf::new(), CacheEntry::Failed), VisitStep::Abandoned));
    assert_eq!(v.prev.len(), 1);
    assert_eq!(v.files.len(), 0);
}

#[test]
fn found_files_are_visited_in_small_letters() {
    let mut v = visitor(&[], &[]);
    match v.visit_file("Client\\RES\\A.txt", Some(3)) {
        VisitStep::HashInput(visit) => assert_eq!(visit.path, "client\\res\\a.txt"),
        _ => panic!("the file had to be hashed"),
    }
}

#[test]
fn listed_files_keep_their_case_or_are_forgotten() {
    let mut v = visitor(&[], &[]);
    known(&mut v, "gone.txt", pair(1, 1));
    remember(&mut v, "gone.txt", Some(1), meta(1));
    assert!(v.do_scan_file("gone.txt".to_string(), FileStatus::Missing).is_none());
    assert_eq!((v.prev.len(), v.quickcheck.len(), v.stats.total), (0, 0, 0));
    match v.do_scan_file("A.txt".to_string(), FileStatus::Present(Some(2))) {
        Some(VisitStep::HashInput(visit)) => assert_eq!((visit.path.as_str(), visit.mtime), ("A.txt", Some(2))),
        _ => panic!("the file had to be hashed"),
    }
    match v.do_scan_file("B.txt".to_string(), FileStatus::Unreadable) {
        Some(VisitStep::HashInput(visit)) => assert_eq!(visit.mtime, None),
        _ => panic!("the file had to be hashed"),
    }
}

#[test]
fn lines_of_a_file_list() {
    let t = scan_target("client/res/a b.txt ", "client\\").unwrap();
    assert_eq!(t.path, "client\\res\\a b.txt ");
    assert_eq!(t.components, vec!["res", "a b.txt"]);
    assert!(scan_target("other/a", "client\\").is_none());
    assert_eq!(scan_target("a", "").unwrap().components, vec!["a"]);
    assert_eq!(listing_prefix(true, "client\\"), "");
    assert_eq!(listing_prefix(false, "client\\"), "client\\");
}

#[test]
fn failed_compressions_are_dropped() {
    let mut v = visitor(&[], &[]);
    for (name, n) in [("a", 1u8), ("b", 2), ("c", 3)] {
        let visit = match v.visit(name.to_string(), None) {
            VisitStep::HashInput(visit) => visit,
            _ => panic!("the file had to be hashed"),
        };
        if let VisitStep::ProbeCache(probe) = v.input_hashed(visit, Some(meta(n))) {
            v.cache_probed(probe, PathBuf::new(), CacheEntry::Missing);
        }
    }
    let checks = v.flush_pending(vec![Some(pair(1, 4)), None, Some(pair(3, 5))]);
    let paths: Vec<&str> = checks.iter().map(|c| c.path.as_str()).collect();
    assert_eq!(paths, vec!["a", "c"]);
    assert_eq!(v.stats.compress, 2);
    assert_eq!(v.files.len(), 2);
    assert_eq!(v.files.entry(1).0, "c");
    assert_eq!(v.files.entry(1).1.pair.compressed.size, 5);
    assert!(v.flush_pending(vec![]).is_empty());
}

#[test]
fn untouched_files_stay_in_the_manifest() {
    let mut v = visitor(&[], &[]);
    known(&mut v, "a", pair(1, 1));
    known(&mut v, "b", pair(2, 2));
    remember(&mut v, "a", Some(1), meta(1));
    remember(&mut v, "b", Some(1), meta(2));
    assert!(matches!(v.visit("a".to_string(), Some(1)), VisitStep::Recorded(_)));
    let rest = v.adopt_untouched();
    let kept: Vec<String> = rest.values().map(|q| q.path.clone()).collect();
    assert_eq!(kept, vec!["b"]);
    assert_eq!(v.files.len(), 2);
    assert_eq!(v.files.entry(0).1.pair.raw.size, 1);
    assert_eq!(v.files.entry(1).1.pair.raw.size, 2);
    assert_eq!((v.prev.len(), v.quickcheck.len()), (0, 0));
}

#[test]
fn counts_start_at_nothing_and_have_room() {
    let v = visitor(&[], &[]);
    assert!(v.stats.has_room());
    let mut full = v.stats;
    full.total = usize::MAX;
    assert!(!full.has_room());
    full.total = 0;
    full.compress = usize::MAX;
    assert!(full.has_room());
}

#[test]
fn name_of_the_quickcheck_file() {
    assert_eq!(quickcheck_file_name("client"), "client.quickcheck.txt");
}

#[test]
fn visits_leave_other_paths_alone() {
    let mut v = visitor(&[], &["x*"]);
    known(&mut v, "a", pair(1, 1));
    known(&mut v, "b", pair(2, 2));
    known(&mut v, "x", pair(3, 3));
    remember(&mut v, "a", Some(1), meta(1));
    assert!(matches!(v.visit("x".to_string(), Some(1)), VisitStep::Ignored));
    assert!(matches!(v.visit("a".to_string(), Some(1)), VisitStep::Recorded(_)));
    assert_eq!((v.prev.entry(0).0, v.prev.entry(1).0), ("b", "x"));
    assert_eq!((v.files.len(), v.files.entry(0).0), (1, "a"));
}

#[test]
fn every_visit_is_counted_once() {
    let mut v = visitor(&[], &["x*"]);
    known(&mut v, "a", pair(1, 1));
    remember(&mut v, "a", Some(1), meta(1));
    v.visit("x1".to_string(), None);
    v.visit("a".to_string(), Some(1));
    for (name, entry) in [
        ("b", CacheEntry::Found(meta(9))),
        ("c", CacheEntry::Missing),
        ("d", CacheEntry::Failed),
    ] {
        if let VisitStep::HashInput(visit) = v.visit(name.to_string(), None) {
            if let VisitStep::ProbeCache(probe) = v.input_hashed(visit, Some(meta(4))) {
                v.cache_probed(probe, PathBuf::new(), entry);
            }
        }
    }
    assert_eq!((v.stats.ignored, v.stats.total), (1, 4));
    assert_eq!((v.stats.unchanged, v.stats.cached_sd0, v.pending.len()), (1, 1, 1));
}

#[test]
fn case_of_found_paths_does_not_matter() {
    let mut v = visitor(&[], &[]);
    known(&mut v, "client\\a.txt", pair(1, 1));
    remember(&mut v, "client\\a.txt", Some(1), meta(1));
    assert!(matches!(v.visit_file("CLIENT\\A.TXT", Some(1)), VisitStep::Recorded(_)));
}

#[test]
fn last_of_two_compressions_wins() {
    let mut v = visitor(&[], &[]);
    for _ in 0..2 {
        if let VisitStep::HashInput(visit) = v.visit("a".to_string(), None) {
            if let VisitStep::ProbeCache(probe) = v.input_hashed(visit, Some(meta(1))) {
                v.cache_probed(probe, PathBuf::new(), CacheEntry::Missing);
            }
        }
    }
    assert_eq!(v.flush_pending(vec![Some(pair(1, 2)), Some(pair(1, 3))]).len(), 2);
    assert_eq!((v.files.len(), v.stats.compress), (1, 2));
    assert_eq!(v.files.entry(0).1.pair.compressed.size, 3);
}

#[test]
fn packs_are_ignored_unless_asked_for() {
    let mut v = visitor(&[], &[]);
    assert!(matches!(v.visit("front.pk".to_string(), None), VisitStep::Ignored));
    assert!(matches!(v.visit_file("client\\Pack\\FRONT.PK", None), VisitStep::Ignored));
    let status = FileStatus::Present(Some(1));
    assert!(matches!(v.do_scan_file("A.Pk".to_string(), status), Some(VisitStep::Ignored)));
    assert!(matches!(v.visit("primary.pki".to_string(), None), VisitStep::HashInput(_)));
    assert_eq!((v.stats.ignored, v.stats.total), (3, 1));
    v.include_pk = true;
    assert!(matches!(v.visit("front.pk".to_string(), None), VisitStep::HashInput(_)));
    assert!(matches!(
        Visitor::new(
            include_glob(&vec![]).unwrap(),
            exclude_glob(&list(&["*.pk"])).unwrap(),
            BTreeMap::new(),
            FileMap::new(),
            true,
            '/',
        )
        .visit("front.pk".to_string(), None),
        VisitStep::Ignored
    ));
}

#[test]
fn names_of_packs() {
    assert!(names_pack(".pk"));
    assert!(names_pack("a\\b.PK"));
    assert!(!names_pack("pk"));
    assert!(!names_pack("a.pk\\b"));
    assert!(!names_pack("a.pki"));
}

#[test]
fn counts_of_a_whole_scan() {
    let mut v = visitor(&[], &[]);
    known(&mut v, "a", pair(1, 1));
    known(&mut v, "old", pair(1, 1));
    remember(&mut v, "a", Some(1), meta(1));
    let mut visits = 0;
    for (name, entry) in [
        ("a", CacheEntry::Missing),
        ("b.pk", CacheEntry::Missing),
        ("c", CacheEntry::Missing),
        ("c", CacheEntry::Missing),
        ("d", CacheEntry::Found(meta(2))),
        ("e", CacheEntry::Failed),
    ] {
        visits += 1;
        if let VisitStep::HashInput(visit) = v.visit(name.to_string(), Some(1)) {
            if let VisitStep::ProbeCache(probe) = v.input_hashed(visit, Some(meta(3))) {
                v.cache_probed(probe, PathBuf::new(), entry);
            }
        }
    }
    v.flush_pending(vec![Some(pair(3, 4)), Some(pair(3, 4))]);
    let s = v.stats;
    assert_eq!(s.total + s.ignored, visits);
    assert_eq!((s.quickcheck, s.unchanged, s.cached_sd0, s.compress, s.total), (1, 1, 1, 2, 5));
    assert_eq!(v.files.len(), 3);
    v.adopt_untouched();
    assert_eq!(v.files.len(), 4);
}

#[test]
fn last_visit_that_can_be_counted_can_be_finished() {
    let mut v = visitor(&[], &[]);
    v.stats.total = usize::MAX - 1;
    let visit = match v.visit("a".to_string(), None) {
        VisitStep::HashInput(visit) => visit,
        _ => panic!("the file had to be hashed"),
    };
    let probe = match v.input_hashed(visit, Some(meta(1))) {
        VisitStep::ProbeCache(probe) => probe,
        _ => panic!("the cache had to be looked into"),
    };
    let entry = CacheEntry::Found(meta(2));
    assert!(matches!(v.cache_probed(probe, PathBuf::new(), entry), VisitStep::Recorded(_)));
    assert_eq!((v.stats.total, v.stats.cached_sd0), (usize::MAX, 1));
    assert!(v.do_scan_file("b".to_string(), FileStatus::Missing).is_none());
}

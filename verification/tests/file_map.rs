use lu_cache::digest::{file_line, FileLine, FileMeta, FileMetaPair};
use lu_cache::file_map::FileMap;

fn line(path: &str, size: u32) -> FileLine {
    let meta = FileMeta { size, hash: [0; 16] };
    file_line(path, FileMetaPair { raw: meta, compressed: meta })
}

fn paths(map: &FileMap) -> Vec<String> {
    (0..map.len()).map(|i| map.entry(i).0.to_string()).collect()
}

#[test]
fn keeps_paths_in_byte_order() {
    let mut map = FileMap::new();
    let names = ["b", "a", "ab", "", "Z", "ü", "a\\b", "a.b"];
    for n in names {
        map.insert(n.to_string(), line(n, 1));
    }
    let mut expected: Vec<String> = names.iter().map(|n| n.to_string()).collect();
    expected.sort();
    assert_eq!(paths(&map), expected);
}

#[test]
fn insert_replaces_and_remove_takes_out() {
    let mut map = FileMap::new();
    map.insert("a".to_string(), line("a", 1));
    map.insert("b".to_string(), line("b", 2));
    map.insert("a".to_string(), line("a", 3));
    assert_eq!(map.len(), 2);
    assert_eq!(map.entry(0).1.pair.raw.size, 3);
    assert_eq!(map.remove("a").map(|l| l.pair.raw.size), Some(3));
    assert!(map.remove("a").is_none());
    assert_eq!(paths(&map), vec!["b"]);
}

#[test]
fn append_prefers_the_other_map() {
    let mut a = FileMap::new();
    let mut b = FileMap::new();
    a.insert("x".to_string(), line("x", 1));
    a.insert("y".to_string(), line("y", 1));
    b.insert("y".to_string(), line("y", 2));
    b.insert("z".to_string(), line("z", 2));
    a.append(b);
    assert_eq!(paths(&a), vec!["x", "y", "z"]);
    let sizes: Vec<u32> = (0..3).map(|i| a.entry(i).1.pair.raw.size).collect();
    assert_eq!(sizes, vec![1, 2, 2]);
}

use lu_cache::digest::{FileMeta, FileMetaPair};
use lu_cache::finalize::{
    build_frontend_patterns, filter_entries, filter_trunk, frontend_entries, generate_frontend,
    hash_to_path, hotfix_files, index_files, make_version, manifest_name, pki_file_name,
    read_manifest_entries, should_exclude, version_entry, version_files, write_manifest_crlf,
    PatternsError,
};
use lu_cache::globs::{matches_any, GlobError};

const ENTRY: &str = "a/b.txt,1,c4ca4238a0b923820dcc509a6f75849b,2,c81e728d9d4c2f636f067f89cc14862c";
const ENTRY_SUM: &str = "75e953c972701ca68cb6571c4e8967fe";

fn list(items: &[&str]) -> Vec<String> {
    items.iter().map(|p| p.to_string()).collect()
}

fn pair() -> FileMetaPair {
    let mut raw = [0u8; 16];
    let mut compressed = [0u8; 16];
    for i in 0..16u8 {
        raw[i as usize] = i;
        compressed[i as usize] = i + 16;
    }
    FileMetaPair {
        raw: FileMeta { size: 10, hash: raw },
        compressed: FileMeta { size: 20, hash: compressed },
    }
}

#[test]
fn cache_path_of_a_checksum() {
    let mut hash = [0xabu8; 16];
    hash[0] = 0x3f;
    assert_eq!(hash_to_path(&hash), format!("3/f/3f{}.sd0", "ab".repeat(15)));
    hash[15] = 0;
    assert_ne!(hash_to_path(&hash), hash_to_path(&[0xab; 16]));
}

#[test]
fn manifest_has_crlf_and_no_final_line_end() {
    assert_eq!(
        write_manifest_crlf(1, "live", &list(&["x", "y"])),
        "[version]\r\n1,c4ca4238a0b923820dcc509a6f75849b,live\r\n[files]\r\nx\r\ny"
    );
    assert_eq!(
        write_manifest_crlf(82, "82", &vec![]),
        "[version]\r\n82,9778d5d219c5080b9a6a17bef029331c,82\r\n[files]"
    );
}

#[test]
fn excluded_names() {
    assert!(should_exclude("res/.git/config"));
    assert!(should_exclude(".gitignore"));
    assert!(should_exclude("x/generator_config.txt,1"));
    assert!(should_exclude("generator_config_ci.txt"));
    assert!(should_exclude("README.md"));
    assert!(!should_exclude("readme.md"));
    assert!(!should_exclude("generator_config_other.txt"));
    assert!(!should_exclude(""));
}

#[test]
fn entries_below_the_header() {
    let bytes = b"[version]\r\n1,x,y\r\n[files]\r\n  a,1 \r\n\r\n\t\nb,2";
    assert_eq!(read_manifest_entries(bytes).unwrap(), vec!["a,1", "b,2"]);
    assert!(read_manifest_entries(b"").unwrap().is_empty());
    assert!(read_manifest_entries(b"1\n2\n3").unwrap().is_empty());
    assert_eq!(read_manifest_entries(b"1\n2\n3\n4\n").unwrap(), vec!["4"]);
}

#[test]
fn entries_have_to_be_utf8_but_the_header_need_not() {
    assert!(read_manifest_entries(b"\xff\n2\n3\n4").is_ok());
    assert!(read_manifest_entries(b"1\n2\n3\n4\n\xff").is_err());
    assert!(filter_trunk(b"1\n2\n3\n\xc3", 1, "n").is_err());
    let all = build_frontend_patterns(None).unwrap();
    assert!(generate_frontend(b"1\n2\n3\n\xc3", 1, "n", &all).is_err());
}

#[test]
fn read_gives_back_written() {
    let lines = list(&["a,1", "b c,2", "ü,3", "x\ry"]);
    let text = write_manifest_crlf(7, "name", &lines);
    assert_eq!(read_manifest_entries(text.as_bytes()).unwrap(), lines);
    let none = write_manifest_crlf(7, "", &vec![]);
    assert!(read_manifest_entries(none.as_bytes()).unwrap().is_empty());
}

#[test]
fn trunk_entries_are_normalised_and_sealed_anew() {
    let entries = list(&[
        "A\\B.txt,1,C4CA4238a0b923820dcc509a6f75849b,2,c81e728d9d4c2f636f067f89cc14862c,stale,more",
        ENTRY,
        "x\\.GIT\\y,1,2,3,4,5",
        "too,few,fields,here",
        "README.md,1,aa,2,bb",
        "readme.txt,1,aa,2,bb",
    ]);
    assert_eq!(
        filter_entries(&entries),
        vec![
            format!("{},{}", ENTRY, ENTRY_SUM),
            format!("{},{}", ENTRY, ENTRY_SUM),
            "readme.txt,1,aa,2,bb,171672163452b9931dc6dbc01766bc84".to_string(),
        ]
    );
}

#[test]
fn filtering_twice_is_filtering_once() {
    let trunk = format!("[version]\n1,x,y\n[files]\n{}\nRes\\C.TXT,1,a,2,b,old\n.git,1,2,3,4\n", ENTRY);
    let once = filter_trunk(trunk.as_bytes(), 3, "v").unwrap();
    assert!(once.starts_with("[version]\r\n3,eccbc87e4b5ce2fe28308fd9f2a7baf3,v\r\n[files]\r\n"));
    assert_eq!(filter_trunk(once.as_bytes(), 3, "v").unwrap(), once);
    for line in read_manifest_entries(once.as_bytes()).unwrap() {
        assert_eq!(line.split(',').count(), 6);
    }
}

#[test]
fn default_frontend_takes_paths_with_a_dot() {
    let patterns = build_frontend_patterns(None).unwrap();
    let entries = list(&["a/b.txt,1", "plain,1.5", "dir.d/x,1", ",.", ""]);
    assert_eq!(frontend_entries(&entries, &patterns), vec!["a/b.txt,1", "dir.d/x,1"]);
}

#[test]
fn frontend_is_part_of_the_trunk() {
    let trunk = b"[version]\r\n1,x,y\r\n[files]\r\na.txt,1\r\nnodot,2\r\nb.txt,3";
    let patterns = build_frontend_patterns(Some(b"# only these\n\n  a.* \r\n")).unwrap();
    assert_eq!(
        generate_frontend(trunk, 1, "live", &patterns).unwrap(),
        "[version]\r\n1,c4ca4238a0b923820dcc509a6f75849b,live\r\n[files]\r\na.txt,1"
    );
    let text = generate_frontend(trunk, 1, "live", &build_frontend_patterns(None).unwrap()).unwrap();
    assert_eq!(read_manifest_entries(text.as_bytes()).unwrap(), vec!["a.txt,1", "b.txt,3"]);
}

#[test]
fn pattern_files() {
    let none = build_frontend_patterns(Some(b"#a\n \n")).unwrap();
    assert!(!matches_any(&none, "a.txt"));
    match build_frontend_patterns(Some(b"# c\nok\n[bad\n\xff")) {
        Err(PatternsError::Glob(GlobError::Pattern { index, pattern, .. })) => {
            assert_eq!((index, pattern.as_str()), (1, "[bad"));
        }
        _ => panic!("a pattern error was due"),
    }
    assert!(matches!(build_frontend_patterns(Some(b"ok\n\xff\n[bad")), Err(PatternsError::NotUtf8)));
}

#[test]
fn version_manifests() {
    assert_eq!(
        version_entry("res\\a.txt", &pair()),
        "res/a.txt,10,000102030405060708090a0b0c0d0e0f,20,101112131415161718191a1b1c1d1e1f,09c821de35ade5718ba87fabb56f69c3"
    );
    assert_eq!(
        make_version(1, "live", &list(&["frontend.txt"]), &vec![pair()]),
        "[version]\r\n1,c4ca4238a0b923820dcc509a6f75849b,live\r\n[files]\r\nfrontend.txt,10,000102030405060708090a0b0c0d0e0f,20,101112131415161718191a1b1c1d1e1f,721851e3fb0bf02b249a31555dceccd6"
    );
    assert_eq!(make_version(1, "n", &vec![], &vec![]), write_manifest_crlf(1, "n", &vec![]));
}

#[test]
fn names_of_files() {
    assert_eq!(manifest_name(Some("main")), "main");
    assert_eq!(manifest_name(None), "trunk");
    assert_eq!(pki_file_name(Some("x")), "x.pki");
    assert_eq!(pki_file_name(None), "primary.pki");
    assert!(hotfix_files().is_empty());
    assert_eq!(version_files(), vec!["index.txt"]);
    assert_eq!(index_files("trunk", "primary.pki"), vec!["frontend.txt", "primary.pki", "trunk.txt"]);
}

#[test]
fn readme_is_removed_from_the_trunk() {
    let trunk = b"[version]\r\n1,x,1\r\n[files]\r\nclient\\README.md,1,aa,2,bb,cc";
    assert_eq!(
        filter_trunk(trunk, 1, "1").unwrap(),
        "[version]\r\n1,c4ca4238a0b923820dcc509a6f75849b,1\r\n[files]"
    );
    for name in ["readme.md", "ReadMe.MD", "x\\.GITIGNORE", "Generator_Config.txt"] {
        let entry = format!("{},1,aa,2,bb,cc", name);
        assert!(filter_entries(&vec![entry]).is_empty());
    }
}

use lu_cache::text::{
    contains, decimal_text, ends_with, replace_char, rsplit_once, split_bytes, split_once, split_text,
    strip_prefix, to_lower, trim,
};

#[test]
fn lower_case_goes_beyond_ascii() {
    assert_eq!(to_lower("MESH\\Env_01.NIF"), "mesh\\env_01.nif");
    assert_eq!(to_lower("ÄÖ[`{@Z"), "äö[`{@z");
    assert_eq!(to_lower("ΟΔΟΣ"), "οδος");
    assert_eq!(to_lower(""), "");
}

#[test]
fn replaces_every_occurrence() {
    assert_eq!(replace_char("a/b//c", '/', '\\'), "a\\b\\\\c");
    assert_eq!(replace_char("ü-ß", '-', '/'), "ü/ß");
    assert_eq!(replace_char("", 'a', 'b'), "");
}

#[test]
fn finds_text_anywhere() {
    assert!(contains("x.git", ".git"));
    assert!(contains(".git/x", ".git"));
    assert!(contains("aab", "ab"));
    assert!(contains("abc", ""));
    assert!(contains("", ""));
    assert!(!contains("gi", ".git"));
    assert!(!contains("ab", "abc"));
    assert!(contains("grüße", "üß"));
}

#[test]
fn trims_unicode_white_space() {
    assert_eq!(trim("  a b \r\n"), "a b");
    assert_eq!(trim("\u{3000}x\u{a0}\u{2028}"), "x");
    assert_eq!(trim("\u{200b}x"), "\u{200b}x");
    assert_eq!(trim(" \t\u{85}"), "");
    assert_eq!(trim(""), "");
    assert_eq!(trim(trim("  a ").as_str()), "a");
}

#[test]
fn white_space_is_what_std_says() {
    for code in 0u32..0x11_0000 {
        if let Some(c) = char::from_u32(code) {
            let s = c.to_string();
            let expected = match code {
                0x9..=0xd | 0x20 | 0x85 | 0xa0 | 0x1680 | 0x2000..=0x200a | 0x2028 | 0x2029
                | 0x202f | 0x205f | 0x3000 => "",
                _ => s.as_str(),
            };
            assert_eq!(trim(&s), expected);
        }
    }
}

#[test]
fn splits_and_joins() {
    assert_eq!(split_text("a,b,,c", ','), vec!["a", "b", "", "c"]);
    assert_eq!(split_text("", ','), vec![""]);
    assert_eq!(split_text(",", ','), vec!["", ""]);
    for s in ["a,b,,c", "", ",", "no", ",x,"] {
        assert_eq!(split_text(s, ',').join(","), s);
    }
    let parts = vec!["x", "", "yz"];
    assert_eq!(split_text(&parts.join(","), ','), parts);
    assert_eq!(split_bytes(b"a\n\nb", 10), vec![b"a".to_vec(), vec![], b"b".to_vec()]);
}

#[test]
fn splits_once_at_either_end() {
    assert_eq!(split_once("a=b=c", '='), ("a".to_string(), Some("b=c".to_string())));
    assert_eq!(split_once("abc", '='), ("abc".to_string(), None));
    assert_eq!(split_once("=", '='), (String::new(), Some(String::new())));
    assert_eq!(rsplit_once("a\\b\\c", '\\'), Some(("a\\b".to_string(), "c".to_string())));
    assert_eq!(rsplit_once("abc", '\\'), None);
    assert_eq!(rsplit_once("a\\", '\\'), Some(("a".to_string(), String::new())));
}

#[test]
fn strips_a_prefix() {
    assert_eq!(strip_prefix("client\\res\\a", "client\\"), Some("res\\a".to_string()));
    assert_eq!(strip_prefix("client", ""), Some("client".to_string()));
    assert_eq!(strip_prefix("cli", "client"), None);
    assert_eq!(strip_prefix("Client\\a", "client\\"), None);
}

#[test]
fn writes_decimal() {
    for n in [0u32, 7, 9, 10, 99, 100, 1_000_000, u32::MAX] {
        assert_eq!(decimal_text(n), n.to_string());
    }
}

#[test]
fn ends_are_found() {
    assert!(ends_with("a.pk", ".pk"));
    assert!(ends_with(".pk", ".pk"));
    assert!(ends_with("x", ""));
    assert!(!ends_with("pk", ".pk"));
    assert!(!ends_with("a.pki", ".pk"));
    assert!(!ends_with("a.Pk", ".pk"));
}

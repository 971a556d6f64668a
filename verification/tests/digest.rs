use lu_cache::digest::{crc_of_text, file_line, line_content, FileMeta, FileMetaPair};

fn bytes_from(start: u8) -> [u8; 16] {
    let mut r = [0u8; 16];
    for i in 0..16u8 {
        r[i as usize] = start + i;
    }
    r
}

fn pair() -> FileMetaPair {
    FileMetaPair {
        raw: FileMeta { size: 10, hash: bytes_from(0) },
        compressed: FileMeta { size: 20, hash: bytes_from(16) },
    }
}

#[test]
fn line_has_path_sizes_and_checksums() {
    assert_eq!(
        line_content("client\\res\\a.txt", &pair()),
        "client\\res\\a.txt,10,000102030405060708090a0b0c0d0e0f,20,101112131415161718191a1b1c1d1e1f"
    );
}

#[test]
fn line_checksum_is_md5_of_the_line() {
    let line = file_line("client\\res\\a.txt", pair());
    let hex: String = line.linesum.iter().map(|b| format!("{:02x}", b)).collect();
    assert_eq!(hex, "f65160f2643d374a872dacbaa78f7dcb");
    assert!(line.pair.raw.same(&pair().raw));
    assert!(line.pair.compressed.same(&pair().compressed));
}

#[test]
fn crc_of_a_path() {
    assert_eq!(crc_of_text("client\\res\\a.txt"), 3562898024);
}

#[test]
fn crc_depends_on_neither_case_nor_slashes() {
    assert_eq!(crc_of_text("CLIENT/RES/A.TXT"), crc_of_text("client\\res\\a.txt"));
    assert_ne!(crc_of_text("client\\res\\b.txt"), crc_of_text("client\\res\\a.txt"));
}

#[test]
fn metadata_differ_in_size_or_checksum() {
    let a = FileMeta { size: 1, hash: bytes_from(3) };
    let mut other = bytes_from(3);
    other[15] = 0;
    assert!(a.same(&FileMeta { size: 1, hash: bytes_from(3) }));
    assert!(!a.same(&FileMeta { size: 2, hash: bytes_from(3) }));
    assert!(!a.same(&FileMeta { size: 1, hash: other }));
}

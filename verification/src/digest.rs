//! Checksums of files and paths, and the metadata that manifests record.

use assembly_pack::md5::MD5Sum;
use vstd::prelude::*;

use crate::text::{decimal, lower, replaced};

verus! {

/// Size and MD5 checksum of a file.
#[derive(Debug, Clone, Copy)]
pub struct FileMeta {
    /// Size in bytes.
    pub size: u32,
    /// MD5 checksum of the content.
    pub hash: [u8; 16],
}

/// Metadata of a file as it is and of its compressed form.
#[derive(Debug, Clone, Copy)]
pub struct FileMetaPair {
    /// The file as it is.
    pub raw: FileMeta,
    /// The compressed file.
    pub compressed: FileMeta,
}

/// What a manifest holds of one file besides its path.
#[derive(Debug, Clone, Copy)]
pub struct FileLine {
    /// Metadata of the file.
    pub pair: FileMetaPair,
    /// MD5 checksum of the manifest line up to here.
    pub linesum: [u8; 16],
}

/// The MD5 checksum of the UTF-8 encoding of a text, as
/// `assembly_pack::md5::MD5Sum::compute` gives it.
pub uninterp spec fn md5(text: Seq<char>) -> [u8; 16];

/// The CRC that identifies a resource path, as
/// `assembly_pack::crc::calculate_crc` gives it for the bytes of the path.
pub uninterp spec fn path_crc(path: Seq<u8>) -> u32;

/// A path byte with slashes turned into backslashes and ASCII letters into
/// small ones.
pub open spec fn normal_byte(b: u8) -> u8 {
    if b == 0x2f {
        0x5c
    } else if 0x41 <= b <= 0x5a {
        (b + 0x20) as u8
    } else {
        b
    }
}

/// A path with each of its bytes in normal form.
pub open spec fn normal_path(path: Seq<u8>) -> Seq<u8> {
    path.map_values(|b: u8| normal_byte(b))
}

/// The CRC of a path given as text: that of its UTF-8 bytes in normal form.
pub open spec fn text_crc(path: Seq<char>) -> u32 {
    path_crc(normal_path(vstd::utf8::encode_utf8(path)))
}

/// The character of a hexadecimal digit.
pub open spec fn hex_digit(d: int) -> char {
    if d < 10 {
        (48 + d) as char
    } else {
        (87 + d) as char
    }
}

/// Bytes in hexadecimal, two small digits for each.
pub open spec fn hex(bytes: Seq<u8>) -> Seq<char> {
    Seq::new(
        2 * bytes.len(),
        |i: int|
            if i % 2 == 0 {
                hex_digit(bytes[i / 2] as int / 16)
            } else {
                hex_digit(bytes[i / 2] as int % 16)
            },
    )
}

/// A file's metadata as it stands in a manifest line: size and checksum.
pub open spec fn meta_text(meta: FileMeta) -> Seq<char> {
    decimal(meta.size as nat).push(',') + hex(meta.hash@)
}

/// A metadata pair as it stands in a manifest line.
pub open spec fn pair_text(pair: FileMetaPair) -> Seq<char> {
    meta_text(pair.raw).push(',') + meta_text(pair.compressed)
}

/// The part of a manifest line that its checksum covers.
pub open spec fn line_text(path: Seq<char>, pair: FileMetaPair) -> Seq<char> {
    path.push(',') + pair_text(pair)
}

/// Calls `assembly_pack::md5::MD5Sum::compute` on a text. The result is a
/// function of the text alone.
#[verifier::external_body]
pub(crate) fn md5_of(text: &str) -> (r: [u8; 16])
    ensures
        r == md5(text@),
{
    MD5Sum::compute(text).0
}

/// Formats an `assembly_pack::md5::MD5Sum`: its `Display` writes each of the
/// sixteen bytes as two small hexadecimal digits.
#[verifier::external_body]
pub(crate) fn hex_of(hash: &[u8; 16]) -> (r: String)
    ensures
        r@ == hex(hash@),
{
    format!("{}", MD5Sum(*hash))
}

/// Formats an `assembly_pack::common::FileMetaPair`: its `Display` writes size
/// and checksum of the raw and of the compressed file, with commas between.
#[verifier::external_body]
pub(crate) fn pair_text_of(pair: &FileMetaPair) -> (r: String)
    ensures
        r@ == pair_text(*pair),
{
    let raw = assembly_pack::common::FileMeta { size: pair.raw.size, hash: MD5Sum(pair.raw.hash) };
    let compressed = assembly_pack::common::FileMeta {
        size: pair.compressed.size,
        hash: MD5Sum(pair.compressed.hash),
    };
    format!("{}", assembly_pack::common::FileMetaPair::new(raw, compressed))
}

/// Calls `assembly_pack::crc::calculate_crc`. The result is a function of the
/// bytes alone, and the same for paths with the same normal form: the function
/// feeds the bytes in normal form to the checksum.
#[verifier::external_body]
pub(crate) fn crc_of(path: &[u8]) -> (r: u32)
    ensures
        r == path_crc(path@),
        r == path_crc(normal_path(path@)),
{
    assembly_pack::crc::calculate_crc(path)
}

impl FileMeta {
    /// Whether size and checksum are the same.
    pub fn same(&self, other: &FileMeta) -> (r: bool)
        ensures
            r == (*self == *other),
    {
        if self.size != other.size {
            return false;
        }
        let mut i: usize = 0;
        while i < 16
            invariant
                i <= 16,
                forall|j: int| 0 <= j < i ==> self.hash@[j] == other.hash@[j],
            decreases 16 - i,
        {
            if self.hash[i] != other.hash[i] {
                return false;
            }
            i += 1;
        }
        assert(self.hash@ =~= other.hash@);
        assert(self.hash == other.hash);
        true
    }
}

/// The part of a manifest line that its checksum covers: path, sizes and
/// checksums.
pub fn line_content(path: &str, pair: &FileMetaPair) -> (r: String)
    ensures
        r@ == line_text(path@, *pair),
{
    let mut r = path.to_owned();
    r.push(',');
    r.append(pair_text_of(pair).as_str());
    r
}

/// The record of a file under a path, with its line checksum.
pub fn file_line(path: &str, pair: FileMetaPair) -> (r: FileLine)
    ensures
        r == (FileLine { pair, linesum: md5(line_text(path@, pair)) }),
{
    let content = line_content(path, &pair);
    FileLine { pair, linesum: md5_of(content.as_str()) }
}

/// The CRC under which a path is remembered.
pub fn crc_of_text(path: &str) -> (r: u32)
    ensures
        r == path_crc(vstd::utf8::encode_utf8(path@)),
        r == text_crc(path@),
{
    crc_of(path.as_bytes())
}

/// The path of a compressed file in the cache: the first two hexadecimal digits
/// of the checksum as directories, then the whole checksum and `.sd0`.
pub open spec fn sd0_path(hash: Seq<u8>, separator: char) -> Seq<char> {
    let h = hex(hash);
    seq![h[0], separator, h[1], separator] + h + ".sd0"@
}

/// Builds the cache path of the file with the given checksum.
pub(crate) fn sd0_path_of(hash: &[u8; 16], separator: char) -> (r: String)
    ensures
        r@ == sd0_path(hash@, separator),
{
    let digits = hex_of(hash);
    let first: char = digits.as_str().get_char(0);
    let second: char = digits.as_str().get_char(1);
    let mut r = String::new();
    r.push(first);
    r.push(separator);
    r.push(second);
    r.push(separator);
    r.append(digits.as_str());
    r.append(".sd0");
    assert(r@ =~= sd0_path(hash@, separator));
    r
}

/// Different checksums have different cache paths: a compressed file is found by
/// its content and never in place of another.
pub proof fn law_cache_paths_differ(a: [u8; 16], b: [u8; 16], separator: char)
    requires
        sd0_path(a@, separator) == sd0_path(b@, separator),
    ensures
        a == b,
{
    let x = hex(a@);
    let y = hex(b@);
    assert forall|i: int| 0 <= i < 16 implies a@[i] == b@[i] by {
        assert(sd0_path(a@, separator)[2 * i + 4] == x[2 * i]);
        assert(sd0_path(a@, separator)[2 * i + 5] == x[2 * i + 1]);
        assert(sd0_path(b@, separator)[2 * i + 4] == y[2 * i]);
        assert(sd0_path(b@, separator)[2 * i + 5] == y[2 * i + 1]);
        assert((2 * i) / 2 == i && (2 * i) % 2 == 0);
        assert((2 * i + 1) / 2 == i && (2 * i + 1) % 2 == 1);
    }
    assert(a@ =~= b@);
}

/// A path is remembered under the same CRC however its ASCII letters and its
/// slashes are written.
pub proof fn law_crc_ignores_case_and_slashes(path: Seq<char>)
    requires
        vstd::utf8::is_ascii_chars(path),
    ensures
        text_crc(lower(path)) == text_crc(path),
        text_crc(replaced(path, '/', '\\')) == text_crc(path),
{
    let small = lower(path);
    let back = replaced(path, '/', '\\');
    vstd::utf8::is_ascii_chars_encode_utf8(path);
    vstd::utf8::is_ascii_chars_encode_utf8(small);
    vstd::utf8::is_ascii_chars_encode_utf8(back);
    let p = vstd::utf8::encode_utf8(path);
    let q = vstd::utf8::encode_utf8(small);
    let r = vstd::utf8::encode_utf8(back);
    assert forall|i: int| 0 <= i < p.len() implies normal_byte(p[i]) == normal_byte(q[i])
        && normal_byte(p[i]) == normal_byte(r[i]) by {
        assert(p[i] == path[i] as u8);
        assert(q[i] == small[i] as u8);
        assert(r[i] == back[i] as u8);
    }
    assert(normal_path(p) =~= normal_path(q));
    assert(normal_path(p) =~= normal_path(r));
}

/// Hexadecimal text has two digits for each byte, the higher half first: `0` to `9`
/// for halves below ten, and `a` to `f` for the others.
pub proof fn law_hex(bytes: Seq<u8>, i: int)
    requires
        0 <= i < bytes.len(),
    ensures
        hex(bytes).len() == 2 * bytes.len(),
        bytes[i] / 16 < 10 ==> hex(bytes)[2 * i] as int == '0' as int + bytes[i] / 16,
        bytes[i] / 16 >= 10 ==> hex(bytes)[2 * i] as int == 'a' as int + bytes[i] / 16 - 10,
        bytes[i] % 16 < 10 ==> hex(bytes)[2 * i + 1] as int == '0' as int + bytes[i] % 16,
        bytes[i] % 16 >= 10 ==> hex(bytes)[2 * i + 1] as int == 'a' as int + bytes[i] % 16 - 10,
{
    assert((2 * i) / 2 == i && (2 * i) % 2 == 0);
    assert((2 * i + 1) / 2 == i && (2 * i + 1) % 2 == 1);
}

/// A manifest line has the path, then size and checksum of the file as it is, then
/// size and checksum of the compressed file, with commas between.
pub proof fn law_line_has_all_metadata(path: Seq<char>, pair: FileMetaPair)
    ensures
        line_text(path, pair) == path + seq![','] + decimal(pair.raw.size as nat) + seq![',']
            + hex(pair.raw.hash@) + seq![','] + decimal(pair.compressed.size as nat) + seq![',']
            + hex(pair.compressed.hash@),
{
    assert(line_text(path, pair) =~= path + seq![','] + decimal(pair.raw.size as nat) + seq![',']
        + hex(pair.raw.hash@) + seq![','] + decimal(pair.compressed.size as nat) + seq![',']
        + hex(pair.compressed.hash@));
}

/// A compressed file stands in a directory for the first digit of its checksum, in
/// that in one for the second, and is named by all of its checksum.
pub proof fn law_cache_path(hash: [u8; 16], separator: char)
    ensures
        hex(hash@).len() == 32,
        sd0_path(hash@, separator) == hex(hash@).subrange(0, 1) + seq![separator] + hex(
            hash@,
        ).subrange(1, 2) + seq![separator] + hex(hash@) + ".sd0"@,
{
    let h = hex(hash@);
    assert(sd0_path(hash@, separator) =~= h.subrange(0, 1) + seq![separator] + h.subrange(1, 2)
        + seq![separator] + h + ".sd0"@);
}

/// The CRC of a path is the outside CRC of its UTF-8 bytes, with slashes turned
/// into backslashes and ASCII letters into small ones.
pub proof fn law_text_crc(path: Seq<char>, normal: Seq<u8>)
    requires
        normal.len() == vstd::utf8::encode_utf8(path).len(),
        forall|i: int|
            0 <= i < normal.len() ==> ({
                let b = vstd::utf8::encode_utf8(path)[i];
                if b == 0x2f {
                    #[trigger] normal[i] == 0x5c
                } else if 0x41 <= b <= 0x5a {
                    normal[i] == b + 0x20
                } else {
                    normal[i] == b
                }
            }),
    ensures
        text_crc(path) == path_crc(normal),
{
    let p = vstd::utf8::encode_utf8(path);
    assert forall|i: int| 0 <= i < p.len() implies normal_path(p)[i] == normal[i] by {
        assert(normal[i] == normal_byte(p[i]));
    }
    assert(normal_path(p) =~= normal);
}

} // verus!

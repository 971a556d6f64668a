//! Post-processing of a cache: the manifests that clients read.

use globset::GlobSet;
use vstd::prelude::*;
use vstd::utf8::{decode_utf8, valid_utf8};

use crate::digest::{
    hex, hex_of, line_content, line_text, md5, md5_of, sd0_path, sd0_path_of, FileMetaPair,
};
use crate::globs::{
    add_pattern, all_parse, any_dotted, build, builder_patterns, builder_target, glob_set,
    matches_any, message, new_builder, pattern_matches, pattern_parses, patterns_fit,
    plain_pattern, set_matches, set_patterns, set_target, GlobError,
};
use crate::text::{
    byte_views, contains, contains_text, decimal, decimal_text, joined, lower, replace_char,
    replaced, split, split_bytes, split_first, split_once, split_text, texts, to_lower, trim, trimmed,
};

verus! {

/// The cache path of the file with the given checksum, as clients ask for it.
pub fn hash_to_path(hash: &[u8; 16]) -> (r: String)
    ensures
        r@ == sd0_path(hash@, '/'),
{
    sd0_path_of(hash, '/')
}

/// A line with its checksum behind it.
pub open spec fn sealed(content: Seq<char>) -> Seq<char> {
    content.push(',') + hex(md5(content)@)
}

/// The lines of a manifest, each on a line of its own.
pub open spec fn lines_text(lines: Seq<Seq<char>>) -> Seq<char>
    decreases lines.len(),
{
    if lines.len() == 0 {
        Seq::<char>::empty()
    } else {
        lines_text(lines.drop_last()) + "\r\n"@ + lines.last()
    }
}

/// The line of a manifest that names its version: the number, the checksum of
/// the number, and the name.
pub open spec fn version_text(version: u32, name: Seq<char>) -> Seq<char> {
    sealed(decimal(version as nat)).push(',') + name
}

/// The text of a manifest: the version, then the files. Lines end in carriage
/// return and line feed, except the last, which has no end.
pub open spec fn manifest_text(version: u32, name: Seq<char>, lines: Seq<Seq<char>>) -> Seq<char> {
    "[version]\r\n"@ + version_text(version, name) + "\r\n[files]"@ + lines_text(lines)
}

/// Appends a comma and the checksum of a line to it.
fn seal(content: String) -> (r: String)
    ensures
        r@ == sealed(content@),
{
    let hash = md5_of(content.as_str());
    let mut r = content;
    r.push(',');
    r.append(hex_of(&hash).as_str());
    r
}

/// Writes a manifest.
pub fn write_manifest_crlf(version: u32, name: &str, lines: &Vec<String>) -> (r: String)
    ensures
        r@ == manifest_text(version, name@, texts(lines@)),
{
    let mut r = "[version]\r\n".to_owned();
    r.append(seal(decimal_text(version)).as_str());
    r.push(',');
    r.append(name);
    r.append("\r\n[files]");
    let ghost head = r@;
    let mut i: usize = 0;
    assert(head + lines_text(texts(lines@).take(0)) =~= head);
    while i < lines.len()
        invariant
            i <= lines.len(),
            r@ == head + lines_text(texts(lines@).take(i as int)),
        decreases lines.len() - i,
    {
        r.append("\r\n");
        r.append(lines[i].as_str());
        proof {
            let t = texts(lines@);
            assert(t.take(i + 1).drop_last() =~= t.take(i as int));
            assert(r@ =~= head + lines_text(t.take(i + 1)));
        }
        i += 1;
    }
    assert(texts(lines@).take(lines.len() as int) =~= texts(lines@));
    assert(head =~= "[version]\r\n"@ + version_text(version, name@) + "\r\n[files]"@);
    r
}

/// Whether a line names something that does not belong into a cache.
pub open spec fn excluded(line: Seq<char>) -> bool {
    ||| contains_text(line, ".git"@)
    ||| contains_text(line, "generator_config.txt"@)
    ||| contains_text(line, "generator_config_ci.txt"@)
    ||| contains_text(line, "README.md"@)
}

/// Tells whether a line names something that does not belong into a cache.
pub fn should_exclude(line: &str) -> (r: bool)
    ensures
        r == excluded(line@),
{
    contains(line, ".git") || contains(line, "generator_config.txt") || contains(
        line,
        "generator_config_ci.txt",
    ) || contains(line, "README.md")
}

/// Text that is not UTF-8.
#[derive(Debug, Clone, Copy)]
pub struct NotUtf8;

/// The lines of a file.
pub open spec fn file_lines(bytes: Seq<u8>) -> Seq<Seq<u8>> {
    split(bytes, 0x0au8)
}

/// The lines of a manifest below its header, which takes three lines.
pub open spec fn body_lines(bytes: Seq<u8>) -> Seq<Seq<u8>> {
    let lines = file_lines(bytes);
    if lines.len() > 3 {
        lines.skip(3)
    } else {
        Seq::<Seq<u8>>::empty()
    }
}

/// Whether all lines are UTF-8.
pub open spec fn readable(lines: Seq<Seq<u8>>) -> bool {
    forall|i: int| 0 <= i < lines.len() ==> valid_utf8(#[trigger] lines[i])
}

/// The text of a line without white space around it.
pub open spec fn line_entry(line: Seq<u8>) -> Seq<char> {
    trimmed(decode_utf8(line))
}

/// The texts of lines without white space around them, but for blank lines.
pub open spec fn line_entries(lines: Seq<Seq<u8>>) -> Seq<Seq<char>> {
    lines.map_values(|l: Seq<u8>| line_entry(l)).filter(|e: Seq<char>| e.len() > 0)
}

/// The entries of a manifest.
pub open spec fn manifest_entries(bytes: Seq<u8>) -> Seq<Seq<char>> {
    line_entries(body_lines(bytes))
}

/// Reads the entries of a manifest. The header is passed over whatever it holds.
pub fn read_manifest_entries(bytes: &[u8]) -> (r: Result<Vec<String>, NotUtf8>)
    ensures
        r is Ok == readable(body_lines(bytes@)),
        r matches Ok(entries) ==> texts(entries@) == manifest_entries(bytes@),
{
    let lines = split_bytes(bytes, 0x0a);
    let ghost body = body_lines(bytes@);
    let mut entries: Vec<String> = Vec::new();
    let mut i: usize = 3;
    let ghost full = |e: Seq<char>| e.len() > 0;
    let ghost all = body.map_values(|l: Seq<u8>| line_entry(l));
    assert(texts(entries@) =~= all.take(0).filter(full)) by {
        reveal(Seq::filter);
    }
    while i < lines.len()
        invariant
            3 <= i,
            i <= lines.len() || lines.len() < 3,
            byte_views(lines@) == file_lines(bytes@),
            body == body_lines(bytes@),
            all == body.map_values(|l: Seq<u8>| line_entry(l)),
            full == (|e: Seq<char>| e.len() > 0),
            lines.len() <= 3 ==> i == 3,
            forall|j: int| 0 <= j < i - 3 ==> valid_utf8(#[trigger] body[j]),
            texts(entries@) == all.take(i - 3).filter(full),
        decreases lines.len() - i,
    {
        assert(body[i - 3] == lines@[i as int]@);
        match std::str::from_utf8(lines[i].as_slice()) {
            Ok(text) => {
                let entry = trim(text);
                let ghost so_far = texts(entries@);
                proof {
                    reveal(Seq::filter);
                    assert(all.take(i - 2).drop_last() =~= all.take(i - 3));
                    assert(all[i - 3] == entry@);
                }
                if !entry.as_str().is_empty() {
                    entries.push(entry);
                    assert(texts(entries@) =~= so_far.push(entry@));
                }
            },
            Err(_) => {
                return Err(NotUtf8);
            },
        }
        i += 1;
    }
    assert(all.take(all.len() as int) =~= all);
    Ok(entries)
}

/// An entry of a manifest in normal form: forward slashes and small letters.
pub open spec fn normal_entry(entry: Seq<char>) -> Seq<char> {
    lower(replaced(entry, '\\', '/'))
}

/// The first five fields of a line: path, sizes and checksums.
pub open spec fn first_five(line: Seq<char>) -> Seq<char> {
    joined(split(line, ',').take(5), ',')
}

/// Whether an entry in normal form names something that does not belong into a
/// cache. Names count in small letters there.
pub open spec fn left_out(line: Seq<char>) -> bool {
    excluded(line) || contains_text(line, "readme.md"@)
}

/// Whether an entry stays in the trunk: it does not name something that does
/// not belong there, and has its five fields.
pub open spec fn stays(entry: Seq<char>) -> bool {
    !left_out(normal_entry(entry)) && split(normal_entry(entry), ',').len() >= 5
}

/// The entries of a filtered trunk: those that stay, in normal form, with their
/// checksums made anew.
pub open spec fn filtered(entries: Seq<Seq<char>>) -> Seq<Seq<char>> {
    entries.filter(|e: Seq<char>| stays(e)).map_values(
        |e: Seq<char>| sealed(first_five(normal_entry(e))),
    )
}

/// Joins the first five fields of a line.
fn join_five(fields: &Vec<String>) -> (r: String)
    requires
        fields.len() >= 5,
    ensures
        r@ == joined(texts(fields@).take(5), ','),
{
    let ghost t = texts(fields@);
    let mut r = fields[0].clone();
    let mut i: usize = 1;
    assert(joined(t.take(1), ',') =~= t[0]);
    while i < 5
        invariant
            1 <= i <= 5,
            fields.len() >= 5,
            t == texts(fields@),
            r@ == joined(t.take(i as int), ','),
        decreases 5 - i,
    {
        r.push(',');
        r.append(fields[i].as_str());
        assert(t.take(i + 1).drop_last() =~= t.take(i as int));
        i += 1;
    }
    r
}

/// Filters the entries of a trunk. What to leave out is looked for in the normal
/// form, so it is found in whatever case it is written.
pub fn filter_entries(entries: &Vec<String>) -> (r: Vec<String>)
    ensures
        texts(r@) == filtered(texts(entries@)),
{
    let ghost t = texts(entries@);
    let ghost keep = |e: Seq<char>| stays(e);
    let ghost seal_it = |e: Seq<char>| sealed(first_five(normal_entry(e)));
    let mut r: Vec<String> = Vec::new();
    let mut i: usize = 0;
    assert(texts(r@) =~= t.take(0).filter(keep).map_values(seal_it)) by {
        reveal(Seq::filter);
    }
    while i < entries.len()
        invariant
            i <= entries.len(),
            t == texts(entries@),
            keep == (|e: Seq<char>| stays(e)),
            seal_it == (|e: Seq<char>| sealed(first_five(normal_entry(e)))),
            texts(r@) == t.take(i as int).filter(keep).map_values(seal_it),
        decreases entries.len() - i,
    {
        let ghost so_far = texts(r@);
        let ghost kept = t.take(i as int).filter(keep);
        proof {
            reveal(Seq::filter);
            assert(t.take(i + 1).drop_last() =~= t.take(i as int));
        }
        let slashed = replace_char(entries[i].as_str(), '\\', '/');
        let entry = to_lower(slashed.as_str());
        assert(entry@ == normal_entry(t[i as int]));
        if !should_exclude(entry.as_str()) && !contains(entry.as_str(), "readme.md") {
            let fields = split_text(entry.as_str(), ',');
            assert(texts(fields@).len() == fields.len());
            if fields.len() >= 5 {
                let content = join_five(&fields);
                let line = seal(content);
                r.push(line);
                assert(texts(r@) =~= so_far.push(line@));
                assert(kept.push(t[i as int]).map_values(seal_it) =~= kept.map_values(seal_it).push(
                    line@,
                ));
            }
        }
        i += 1;
    }
    assert(t.take(entries.len() as int) =~= t);
    r
}

/// Filters a trunk: the manifest that takes the place of the one that is read.
pub fn filter_trunk(trunk: &[u8], version: u32, name: &str) -> (r: Result<String, NotUtf8>)
    ensures
        r is Ok == readable(body_lines(trunk@)),
        r matches Ok(text) ==> text@ == manifest_text(
            version,
            name@,
            filtered(manifest_entries(trunk@)),
        ),
{
    match read_manifest_entries(trunk) {
        Ok(entries) => {
            let lines = filter_entries(&entries);
            Ok(write_manifest_crlf(version, name, &lines))
        },
        Err(e) => Err(e),
    }
}

/// The path that an entry of a manifest is about: its first field.
pub open spec fn entry_path(entry: Seq<char>) -> Seq<char> {
    split_first(entry, ',').0
}

/// The entries whose paths a set of patterns matches.
pub open spec fn frontend(entries: Seq<Seq<char>>, patterns: GlobSet) -> Seq<Seq<char>> {
    entries.filter(|e: Seq<char>| set_matches(patterns, entry_path(e)))
}

/// The entries whose paths have a dot in them.
pub open spec fn dotted(entries: Seq<Seq<char>>) -> Seq<Seq<char>> {
    entries.filter(|e: Seq<char>| entry_path(e).contains('.'))
}

/// The default patterns pick the entries whose paths have a dot in them.
pub proof fn law_default_frontend(entries: Seq<Seq<char>>, patterns: GlobSet)
    requires
        set_patterns(patterns) == default_patterns(),
    ensures
        frontend(entries, patterns) == dotted(entries),
{
    reveal_strlit("**");
    reveal_strlit("**/*.*");
    let keep = |e: Seq<char>| set_matches(patterns, entry_path(e));
    let dot = |e: Seq<char>| entry_path(e).contains('.');
    assert forall|e: Seq<char>| #[trigger] keep(e) == dot(e) by {
        let p = set_patterns(patterns);
        assert(p[0] == any_dotted());
        assert(pattern_matches(set_target(patterns), p[0], entry_path(e)) == dot(e));
    }
    assert(keep =~= dot);
}

/// Picks the entries whose paths a set of patterns matches.
pub fn frontend_entries(entries: &Vec<String>, patterns: &GlobSet) -> (r: Vec<String>)
    ensures
        texts(r@) == frontend(texts(entries@), *patterns),
{
    let ghost t = texts(entries@);
    let ghost keep = |e: Seq<char>| set_matches(*patterns, entry_path(e));
    let mut r: Vec<String> = Vec::new();
    let mut i: usize = 0;
    proof {
        reveal(Seq::filter);
        assert(texts(r@) =~= t.take(0).filter(keep));
    }
    while i < entries.len()
        invariant
            i <= entries.len(),
            t == texts(entries@),
            keep == (|e: Seq<char>| set_matches(*patterns, entry_path(e))),
            texts(r@) == t.take(i as int).filter(keep),
        decreases entries.len() - i,
    {
        let ghost so_far = texts(r@);
        proof {
            reveal(Seq::filter);
            assert(t.take(i + 1).drop_last() =~= t.take(i as int));
        }
        let (path, _) = split_once(entries[i].as_str(), ',');
        if matches_any(patterns, path.as_str()) {
            r.push(entries[i].clone());
            assert(texts(r@) =~= so_far.push(t[i as int]));
        }
        i += 1;
    }
    assert(t.take(entries.len() as int) =~= t);
    r
}

/// Makes the frontend manifest out of the trunk.
pub fn generate_frontend(trunk: &[u8], version: u32, name: &str, patterns: &GlobSet) -> (r: Result<
    String,
    NotUtf8,
>)
    ensures
        r is Ok == readable(body_lines(trunk@)),
        r matches Ok(text) ==> text@ == manifest_text(
            version,
            name@,
            frontend(manifest_entries(trunk@), *patterns),
        ),
{
    match read_manifest_entries(trunk) {
        Ok(entries) => {
            let lines = frontend_entries(&entries, patterns);
            Ok(write_manifest_crlf(version, name, &lines))
        },
        Err(e) => Err(e),
    }
}

/// The line of a version manifest for one file.
pub open spec fn version_entry_text(file: Seq<char>, pair: FileMetaPair) -> Seq<char> {
    sealed(line_text(replaced(file, '\\', '/'), pair))
}

/// Writes the line of a version manifest for one file.
pub fn version_entry(file: &str, pair: &FileMetaPair) -> (r: String)
    ensures
        r@ == version_entry_text(file@, *pair),
{
    let path = replace_char(file, '\\', '/');
    seal(line_content(path.as_str(), pair))
}

/// Makes a manifest of given files, each with the metadata that compressing it
/// gave.
pub fn make_version(
    version: u32,
    name: &str,
    files: &Vec<String>,
    pairs: &Vec<FileMetaPair>,
) -> (r: String)
    requires
        files.len() == pairs.len(),
    ensures
        r@ == manifest_text(
            version,
            name@,
            Seq::new(files@.len(), |i: int| version_entry_text(files@[i]@, pairs@[i])),
        ),
{
    let mut lines: Vec<String> = Vec::new();
    let mut i: usize = 0;
    while i < files.len()
        invariant
            i <= files.len(),
            files.len() == pairs.len(),
            lines.len() == i,
            forall|j: int|
                0 <= j < i ==> (#[trigger] lines@[j])@ == version_entry_text(
                    files@[j]@,
                    pairs@[j],
                ),
        decreases files.len() - i,
    {
        lines.push(version_entry(files[i].as_str(), &pairs[i]));
        i += 1;
    }
    assert(texts(lines@) =~= Seq::new(
        files@.len(),
        |i: int| version_entry_text(files@[i]@, pairs@[i]),
    ));
    write_manifest_crlf(version, name, &lines)
}

/// The patterns of the frontend where none are given: any file whose path has a
/// dot in it.
pub open spec fn default_patterns() -> Seq<Seq<char>> {
    seq![any_dotted()]
}

/// Whether a line of a file of patterns holds a pattern: it is not blank and not
/// a comment.
pub open spec fn is_pattern(entry: Seq<char>) -> bool {
    entry.len() > 0 && entry[0] != '#'
}

/// The patterns in a file of patterns.
pub open spec fn pattern_entries(lines: Seq<Seq<u8>>) -> Seq<Seq<char>> {
    lines.map_values(|l: Seq<u8>| line_entry(l)).filter(|e: Seq<char>| is_pattern(e))
}

/// Why the patterns of the frontend could not be used.
#[derive(Debug)]
pub enum PatternsError {
    /// The file is not UTF-8.
    NotUtf8,
    /// A pattern or all of them were refused.
    Glob(GlobError),
}

/// Whether the lines before line `n` are readable and their patterns well-formed.
pub open spec fn good_before(target: int, lines: Seq<Seq<u8>>, n: int) -> bool {
    &&& 0 <= n < lines.len()
    &&& readable(lines.take(n))
    &&& all_parse(target, pattern_entries(lines.take(n)))
}

/// What reading patterns from lines comes to on a target. The first line that is
/// not UTF-8 or holds a malformed pattern is reported, a pattern with the number
/// of patterns before it. Where there is no such line, the patterns make a set
/// that holds exactly them, in order, or are too large together.
pub open spec fn patterns_on(
    target: int,
    r: Result<GlobSet, PatternsError>,
    lines: Seq<Seq<u8>>,
) -> bool {
    let patterns = pattern_entries(lines);
    &&& r is Ok <==> readable(lines) && all_parse(target, patterns) && patterns_fit(
        target,
        patterns,
    )
    &&& r matches Ok(set) ==> set_patterns(set) == patterns && set_target(set) == target
    &&& r matches Err(PatternsError::NotUtf8) ==> exists|n: int| #[trigger]
        good_before(target, lines, n) && !valid_utf8(lines[n])
    &&& r matches Err(PatternsError::Glob(GlobError::Pattern { index, pattern, .. })) ==> exists|
        n: int,
    | #[trigger]
        good_before(target, lines, n) && valid_utf8(lines[n]) && is_pattern(line_entry(lines[n]))
            && pattern@ == line_entry(lines[n]) && !pattern_parses(target, pattern@) && index
            == pattern_entries(lines.take(n)).len()
    &&& r matches Err(PatternsError::Glob(GlobError::TooLarge { .. })) ==> readable(lines)
        && all_parse(target, patterns)
}

/// What reading patterns from lines comes to on the target that the program runs
/// on.
pub open spec fn patterns_from(r: Result<GlobSet, PatternsError>, lines: Seq<Seq<u8>>) -> bool {
    exists|target: int| patterns_on(target, r, lines)
}

/// One more line adds the pattern that it holds, if it holds one.
proof fn lemma_pattern_entries_step(lines: Seq<Seq<u8>>, n: int)
    requires
        0 <= n < lines.len(),
    ensures
        pattern_entries(lines.take(n + 1)) == (if is_pattern(line_entry(lines[n])) {
            pattern_entries(lines.take(n)).push(line_entry(lines[n]))
        } else {
            pattern_entries(lines.take(n))
        }),
{
    reveal(Seq::filter);
    let entry = |l: Seq<u8>| line_entry(l);
    assert(lines.take(n + 1).map_values(entry).drop_last() =~= lines.take(n).map_values(entry));
    assert(lines.take(n + 1).map_values(entry).last() == line_entry(lines[n]));
}

/// A malformed pattern on one line is among the patterns of all lines.
pub proof fn lemma_bad_pattern(target: int, lines: Seq<Seq<u8>>, n: int)
    requires
        0 <= n < lines.len(),
        is_pattern(line_entry(lines[n])),
        !pattern_parses(target, line_entry(lines[n])),
    ensures
        !all_parse(target, pattern_entries(lines)),
{
    broadcast use vstd::seq_lib::group_filter_ensures;

    let all = lines.map_values(|l: Seq<u8>| line_entry(l));
    assert(all[n] == line_entry(lines[n]));
    assert(pattern_entries(lines).contains(all[n]));
    let k = choose|k: int|
        0 <= k < pattern_entries(lines).len() && pattern_entries(lines)[k] == all[n];
    assert(!pattern_parses(target, pattern_entries(lines)[k]));
}

/// Reads patterns from the lines of a file. Stops at the first line that is not
/// UTF-8 or holds a malformed pattern.
fn read_patterns(bytes: &[u8]) -> (r: Result<GlobSet, PatternsError>)
    ensures
        patterns_from(r, file_lines(bytes@)),
{
    let lines = split_bytes(bytes, 0x0a);
    let ghost all = byte_views(lines@);
    let mut builder = new_builder();
    let ghost target = builder_target(builder);
    let mut count: usize = 0;
    let mut i: usize = 0;
    assert(pattern_entries(all.take(0)) =~= Seq::<Seq<char>>::empty()) by {
        reveal(Seq::filter);
    }
    while i < lines.len()
        invariant
            i <= lines.len(),
            count <= i,
            all == byte_views(lines@),
            all == file_lines(bytes@),
            builder_target(builder) == target,
            readable(all.take(i as int)),
            builder_patterns(builder) == pattern_entries(all.take(i as int)),
            all_parse(target, pattern_entries(all.take(i as int))),
            count == pattern_entries(all.take(i as int)).len(),
        decreases lines.len() - i,
    {
        assert(all[i as int] == lines@[i as int]@);
        let ghost before = pattern_entries(all.take(i as int));
        proof {
            lemma_pattern_entries_step(all, i as int);
            assert(good_before(target, all, i as int));
        }
        match std::str::from_utf8(lines[i].as_slice()) {
            Ok(text) => {
                let entry = trim(text);
                if !entry.as_str().is_empty() && entry.as_str().get_char(0) != '#' {
                    match add_pattern(&mut builder, entry.as_str()) {
                        Ok(_) => {},
                        Err(e) => {
                            let ghost pattern = entry@;
                            let r = Err(
                                PatternsError::Glob(
                                    GlobError::Pattern {
                                        index: count,
                                        pattern: entry,
                                        message: message(&e),
                                    },
                                ),
                            );
                            proof {
                                lemma_bad_pattern(target, all, i as int);
                                assert(patterns_on(target, r, all));
                            }
                            return r;
                        },
                    }
                    count += 1;
                    assert forall|j: int| 0 <= j < before.push(entry@).len() implies pattern_parses(
                        target,
                        #[trigger] before.push(entry@)[j],
                    ) by {
                        if j < before.len() {
                            assert(before[j] == before.push(entry@)[j]);
                        }
                    }
                }
            },
            Err(_) => {
                let r = Err(PatternsError::NotUtf8);
                assert(patterns_on(target, r, all));
                return r;
            },
        }
        assert forall|j: int| 0 <= j < i + 1 implies valid_utf8(#[trigger] all.take(i + 1)[j]) by {
            if j < i {
                assert(all.take(i as int)[j] == all[j]);
            }
        }
        i += 1;
    }
    assert(all.take(all.len() as int) =~= all);
    let r = match build(&builder) {
        Ok(set) => Ok(set),
        Err(e) => Err(PatternsError::Glob(GlobError::TooLarge { message: message(&e) })),
    };
    assert(patterns_on(target, r, all));
    r
}

/// Builds the patterns of the frontend: those in the given file, or else the
/// default.
pub fn build_frontend_patterns(file: Option<&[u8]>) -> (r: Result<GlobSet, PatternsError>)
    ensures
        file matches Some(bytes) ==> patterns_from(r, split(bytes@, 0x0au8)),
        file is None ==> (r matches Ok(set) && set_patterns(set) == default_patterns()),
{
    match file {
        Some(bytes) => read_patterns(bytes),
        None => {
            let mut patterns: Vec<String> = Vec::new();
            patterns.push("**/*.*".to_owned());
            proof {
                reveal_strlit("**/*.*");
                assert(texts(patterns@) =~= default_patterns());
            }
            assert(plain_pattern(any_dotted()));
            match glob_set(&patterns) {
                Ok(set) => Ok(set),
                Err(e) => Err(PatternsError::Glob(e)),
            }
        },
    }
}

/// The name of the trunk manifest, without extension.
pub fn manifest_name(name: Option<&str>) -> (r: String)
    ensures
        name matches Some(n) ==> r@ == n@,
        name is None ==> r@ == "trunk"@,
{
    match name {
        Some(n) => n.to_owned(),
        None => "trunk".to_owned(),
    }
}

/// The file name of the pack index.
pub fn pki_file_name(name: Option<&str>) -> (r: String)
    ensures
        name matches Some(n) ==> r@ == n@ + ".pki"@,
        name is None ==> r@ == "primary"@ + ".pki"@,
{
    let mut r = match name {
        Some(n) => n.to_owned(),
        None => "primary".to_owned(),
    };
    r.append(".pki");
    r
}

/// The files that the hotfix manifest lists: none.
pub fn hotfix_files() -> (r: Vec<String>)
    ensures
        texts(r@) == Seq::<Seq<char>>::empty(),
{
    let r: Vec<String> = Vec::new();
    assert(texts(r@) =~= Seq::<Seq<char>>::empty());
    r
}

/// The files that the version manifest lists: the index manifest.
pub fn version_files() -> (r: Vec<String>)
    ensures
        texts(r@) == seq!["index.txt"@],
{
    let mut r: Vec<String> = Vec::new();
    r.push("index.txt".to_owned());
    assert(texts(r@) =~= seq!["index.txt"@]);
    r
}

/// The files that the index manifest lists: the frontend manifest, the pack
/// index and the trunk manifest.
pub fn index_files(manifest: &str, pki_file: &str) -> (r: Vec<String>)
    ensures
        texts(r@) == seq!["frontend.txt"@, pki_file@, manifest@ + ".txt"@],
{
    let mut r: Vec<String> = Vec::new();
    r.push("frontend.txt".to_owned());
    r.push(pki_file.to_owned());
    let mut trunk = manifest.to_owned();
    trunk.append(".txt");
    r.push(trunk);
    assert(texts(r@) =~= seq!["frontend.txt"@, pki_file@, manifest@ + ".txt"@]);
    r
}

} // verus!

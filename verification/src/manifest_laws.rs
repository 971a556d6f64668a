//! What the manifests hold: which entries stay, as which lines, and what is read
//! from and written to the files.

use globset::GlobSet;
use vstd::prelude::*;
use vstd::utf8::{decode_utf8, valid_utf8};

use crate::digest::{hex, line_text, md5, FileMetaPair};
use crate::finalize::{
    body_lines, default_patterns, entry_path, excluded, filtered, first_five, frontend,
    good_before, is_pattern, lemma_bad_pattern, line_entry, manifest_entries, manifest_text,
    normal_entry, pattern_entries, patterns_from, patterns_on, readable, sealed, stays,
    version_entry_text, PatternsError,
};
use crate::globs::{glob_parses, globs_fit, pattern_parses, set_matches, set_patterns, GlobError};
use crate::text::{contains_text, decimal, joined, lower, replaced, split, trimmed};
use crate::text_laws::{law_split_first, lemma_split_concat, lemma_split_whole};

verus! {

/// A name that does not belong into a cache is one of four.
pub proof fn law_excluded_names(line: Seq<char>)
    ensures
        excluded(line) <==> contains_text(line, ".git"@) || contains_text(
            line,
            "generator_config.txt"@,
        ) || contains_text(line, "generator_config_ci.txt"@) || contains_text(line, "README.md"@),
{
}

/// An entry alone stays in a trunk just where it has five fields or more, with
/// backslashes turned into slashes and letters made small, and then has nothing in
/// it that does not belong into a cache. It becomes one line: its first five fields
/// and, behind a further comma, the checksum of those.
pub proof fn law_filter_one_entry(entry: Seq<char>)
    ensures
        ({
            let normal = lower(replaced(entry, '\\', '/'));
            let f = split(normal, ',');
            let content = f[0] + seq![','] + f[1] + seq![','] + f[2] + seq![','] + f[3] + seq![',']
                + f[4];
            let named = contains_text(normal, ".git"@) || contains_text(
                normal,
                "generator_config.txt"@,
            ) || contains_text(normal, "generator_config_ci.txt"@) || contains_text(
                normal,
                "README.md"@,
            ) || contains_text(normal, "readme.md"@);
            &&& f.len() < 5 || named ==> filtered(seq![entry]).len() == 0
            &&& f.len() >= 5 && !named ==> filtered(seq![entry]) == seq![
                content + seq![','] + hex(md5(content)@),
            ]
        }),
{
    let normal = lower(replaced(entry, '\\', '/'));
    let f = split(normal, ',');
    let one = seq![entry];
    let keep = |e: Seq<char>| stays(e);
    reveal(Seq::filter);
    assert(one.drop_last() =~= Seq::<Seq<char>>::empty());
    assert(one.drop_last().filter(keep).len() == 0);
    assert(one.last() == entry);
    if f.len() >= 5 {
        let content = f[0] + seq![','] + f[1] + seq![','] + f[2] + seq![','] + f[3] + seq![',']
            + f[4];
        lemma_five(f);
        assert(first_five(normal) == content);
        assert(sealed(content) =~= content + seq![','] + hex(md5(content)@));
    }
    if stays(entry) {
        assert(one.filter(keep) =~= one);
        assert(filtered(one) =~= seq![sealed(first_five(normal_entry(entry)))]);
    } else {
        assert(one.filter(keep) =~= Seq::<Seq<char>>::empty());
    }
}

/// Five fields with commas between.
proof fn lemma_five(f: Seq<Seq<char>>)
    requires
        f.len() >= 5,
    ensures
        joined(f.take(5), ',') == f[0] + seq![','] + f[1] + seq![','] + f[2] + seq![','] + f[3]
            + seq![','] + f[4],
{
    let t = f.take(5);
    assert(t.drop_last() =~= f.take(4));
    assert(f.take(4).drop_last() =~= f.take(3));
    assert(f.take(3).drop_last() =~= f.take(2));
    assert(f.take(2).drop_last() =~= f.take(1));
    assert(joined(f.take(1), ',') == f[0]);
    assert(joined(f.take(2), ',') =~= f[0] + seq![','] + f[1]);
    assert(joined(f.take(3), ',') =~= f[0] + seq![','] + f[1] + seq![','] + f[2]);
    assert(joined(f.take(4), ',') =~= f[0] + seq![','] + f[1] + seq![','] + f[2] + seq![',']
        + f[3]);
    assert(joined(t, ',') =~= f[0] + seq![','] + f[1] + seq![','] + f[2] + seq![','] + f[3] + seq![
        ',',
    ] + f[4]);
}

/// Filtering goes entry by entry: what becomes of an entry does not depend on the
/// others, and the lines come in the order of the entries.
pub proof fn law_filter_goes_by_entries(a: Seq<Seq<char>>, b: Seq<Seq<char>>)
    ensures
        filtered(Seq::<Seq<char>>::empty()).len() == 0,
        filtered(a + b) == filtered(a) + filtered(b),
{
    let keep = |e: Seq<char>| stays(e);
    let seal_it = |e: Seq<char>| sealed(first_five(normal_entry(e)));
    Seq::filter_distributes_over_add(a, b, keep);
    assert((a.filter(keep) + b.filter(keep)).map_values(seal_it) =~= a.filter(keep).map_values(
        seal_it,
    ) + b.filter(keep).map_values(seal_it));
    reveal(Seq::filter);
    assert(Seq::<Seq<char>>::empty().filter(keep).len() == 0);
}

/// An entry that has its five fields and nothing in it that does not belong into a
/// cache has its line in the filtered trunk, and the filtered trunk has as many
/// lines as there are such entries.
pub proof fn law_filter_drops_nothing_else(entries: Seq<Seq<char>>)
    ensures
        ({
            let belongs = |entry: Seq<char>|
                {
                    let normal = lower(replaced(entry, '\\', '/'));
                    &&& split(normal, ',').len() >= 5
                    &&& !contains_text(normal, ".git"@)
                    &&& !contains_text(normal, "generator_config.txt"@)
                    &&& !contains_text(normal, "generator_config_ci.txt"@)
                    &&& !contains_text(normal, "README.md"@)
                    &&& !contains_text(normal, "readme.md"@)
                };
            &&& filtered(entries).len() == entries.filter(belongs).len()
            &&& forall|i: int|
                0 <= i < entries.len() && belongs(#[trigger] entries[i]) ==> exists|k: int|
                    0 <= k < filtered(entries).len() && ({
                        let f = split(lower(replaced(entries[i], '\\', '/')), ',');
                        let content = f[0] + seq![','] + f[1] + seq![','] + f[2] + seq![','] + f[3]
                            + seq![','] + f[4];
                        #[trigger] filtered(entries)[k] == content + seq![','] + hex(md5(content)@)
                    })
        }),
{
    let belongs = |entry: Seq<char>|
        {
            let normal = lower(replaced(entry, '\\', '/'));
            &&& split(normal, ',').len() >= 5
            &&& !contains_text(normal, ".git"@)
            &&& !contains_text(normal, "generator_config.txt"@)
            &&& !contains_text(normal, "generator_config_ci.txt"@)
            &&& !contains_text(normal, "README.md"@)
            &&& !contains_text(normal, "readme.md"@)
        };
    let keep = |e: Seq<char>| stays(e);
    assert forall|e: Seq<char>| #[trigger] keep(e) == belongs(e) by {}
    assert(keep =~= belongs);
    let left = entries.filter(keep);
    assert forall|i: int| 0 <= i < entries.len() && belongs(#[trigger] entries[i]) implies exists|
        k: int,
    |
        0 <= k < filtered(entries).len() && ({
            let f = split(lower(replaced(entries[i], '\\', '/')), ',');
            let content = f[0] + seq![','] + f[1] + seq![','] + f[2] + seq![','] + f[3] + seq![',']
                + f[4];
            #[trigger] filtered(entries)[k] == content + seq![','] + hex(md5(content)@)
        }) by {
        assert(keep(entries[i]));
        entries.lemma_filter_contains(keep, i);
        let k = choose|k: int| 0 <= k < left.len() && left[k] == entries[i];
        let f = split(lower(replaced(entries[i], '\\', '/')), ',');
        lemma_five(f);
        let content = f[0] + seq![','] + f[1] + seq![','] + f[2] + seq![','] + f[3] + seq![',']
            + f[4];
        assert(sealed(content) =~= content + seq![','] + hex(md5(content)@));
        assert(filtered(entries)[k] == sealed(content));
    }
}

/// An entry is in the frontend just where the patterns match its path, the text
/// before its first comma; it is there as it is, and no entry depends on another.
pub proof fn law_frontend_one_entry(path: Seq<char>, rest: Seq<char>, patterns: GlobSet)
    requires
        !path.contains(','),
    ensures
        set_matches(patterns, path) ==> frontend(seq![path.push(',') + rest], patterns) == seq![
            path.push(',') + rest,
        ] && frontend(seq![path], patterns) == seq![path],
        !set_matches(patterns, path) ==> frontend(seq![path.push(',') + rest], patterns).len() == 0
            && frontend(seq![path], patterns).len() == 0,
{
    law_split_first(path, ',', rest);
    let keep = |e: Seq<char>| set_matches(patterns, entry_path(e));
    lemma_filter_one(path.push(',') + rest, keep);
    lemma_filter_one(path, keep);
}

/// A filter keeps a single item just where it passes.
proof fn lemma_filter_one<T>(x: T, keep: spec_fn(T) -> bool)
    ensures
        keep(x) ==> seq![x].filter(keep) == seq![x],
        !keep(x) ==> seq![x].filter(keep).len() == 0,
{
    reveal(Seq::filter);
    let one = seq![x];
    assert(one.drop_last() =~= Seq::<T>::empty());
    assert(one.drop_last().filter(keep) =~= Seq::<T>::empty());
    assert(one.last() == x);
    if keep(x) {
        assert(one.filter(keep) =~= one);
    }
}

/// The frontend is made entry by entry, in the order of the trunk.
pub proof fn law_frontend_goes_by_entries(
    a: Seq<Seq<char>>,
    b: Seq<Seq<char>>,
    patterns: GlobSet,
)
    ensures
        frontend(Seq::<Seq<char>>::empty(), patterns).len() == 0,
        frontend(a + b, patterns) == frontend(a, patterns) + frontend(b, patterns),
{
    let keep = |e: Seq<char>| set_matches(patterns, entry_path(e));
    Seq::filter_distributes_over_add(a, b, keep);
    reveal(Seq::filter);
}

/// A manifest without lines has its version: the number, the checksum of the number
/// in decimal, and the name. Each further line stands behind a line end of its own.
pub proof fn law_manifest_text(
    version: u32,
    name: Seq<char>,
    lines: Seq<Seq<char>>,
    line: Seq<char>,
)
    ensures
        manifest_text(version, name, Seq::<Seq<char>>::empty()) == "[version]\r\n"@ + decimal(
            version as nat,
        ) + seq![','] + hex(md5(decimal(version as nat))@) + seq![','] + name + "\r\n[files]"@,
        manifest_text(version, name, lines.push(line)) == manifest_text(version, name, lines)
            + seq!['\r', '\n'] + line,
{
    reveal_strlit("\r\n");
    let none = Seq::<Seq<char>>::empty();
    let number = decimal(version as nat);
    assert(manifest_text(version, name, none) =~= "[version]\r\n"@ + number + seq![','] + hex(
        md5(number)@,
    ) + seq![','] + name + "\r\n[files]"@);
    assert(lines.push(line).drop_last() =~= lines);
    assert(manifest_text(version, name, lines.push(line)) =~= manifest_text(version, name, lines)
        + seq!['\r', '\n'] + line);
}

/// The first three lines of a manifest hold no entry. Each line behind them holds
/// its text without white space around it, if anything is left of that.
pub proof fn law_manifest_entries(bytes: Seq<u8>, line: Seq<u8>)
    requires
        !line.contains(0x0au8),
    ensures
        split(bytes, 0x0au8).len() <= 3 ==> manifest_entries(bytes).len() == 0,
        split(bytes, 0x0au8).len() >= 3 ==> manifest_entries(bytes.push(0x0au8) + line) == (
        if trimmed(decode_utf8(line)).len() > 0 {
            manifest_entries(bytes).push(trimmed(decode_utf8(line)))
        } else {
            manifest_entries(bytes)
        }),
{
    reveal(Seq::filter);
    let more = bytes.push(0x0au8) + line;
    let entry = |l: Seq<u8>| line_entry(l);
    lemma_split_concat(bytes, line, 0x0au8);
    lemma_split_whole(line, 0x0au8);
    let before = split(bytes, 0x0au8);
    assert(split(more, 0x0au8) =~= before.push(line));
    if before.len() >= 3 {
        let body = body_lines(bytes);
        let longer = body_lines(more);
        assert(longer =~= body.push(line));
        assert(longer.map_values(entry).drop_last() =~= body.map_values(entry));
        assert(longer.map_values(entry).last() == trimmed(decode_utf8(line)));
    }
}

/// A manifest can be read just where each line behind the first three is UTF-8.
pub proof fn law_which_manifests_can_be_read(bytes: Seq<u8>)
    ensures
        readable(body_lines(bytes)) <==> forall|i: int|
            3 <= i < split(bytes, 0x0au8).len() ==> valid_utf8(#[trigger] split(bytes, 0x0au8)[i]),
{
    let lines = split(bytes, 0x0au8);
    let body = body_lines(bytes);
    if readable(body) {
        assert forall|i: int| 3 <= i < lines.len() implies valid_utf8(#[trigger] lines[i]) by {
            assert(body[i - 3] == lines[i]);
        }
    }
    if forall|i: int| 3 <= i < lines.len() ==> valid_utf8(#[trigger] lines[i]) {
        assert forall|i: int| 0 <= i < body.len() implies valid_utf8(#[trigger] body[i]) by {
            assert(body[i] == lines[i + 3]);
        }
    }
}

/// A line of a version manifest is the manifest line of the file under its path
/// with slashes, and behind a further comma the checksum of that.
pub proof fn law_version_entry(file: Seq<char>, pair: FileMetaPair)
    ensures
        ({
            let content = line_text(replaced(file, '\\', '/'), pair);
            version_entry_text(file, pair) == content + seq![','] + hex(md5(content)@)
        }),
{
    let content = line_text(replaced(file, '\\', '/'), pair);
    assert(version_entry_text(file, pair) =~= content + seq![','] + hex(md5(content)@));
}

/// Where no patterns are given, the frontend is what one pattern matches.
pub proof fn law_default_patterns()
    ensures
        default_patterns().len() == 1,
        default_patterns()[0] == "**/*.*"@,
{
}

/// The patterns in lines are their texts without white space around them, but for
/// blank lines and lines that begin with `#`.
pub open spec fn patterns_in(lines: Seq<Seq<u8>>) -> Seq<Seq<char>> {
    lines.map_values(|l: Seq<u8>| trimmed(decode_utf8(l))).filter(
        |e: Seq<char>| e.len() > 0 && e[0] != '#',
    )
}

/// The patterns of a file are as [`patterns_in`] has them.
proof fn lemma_patterns_in(lines: Seq<Seq<u8>>)
    ensures
        pattern_entries(lines) == patterns_in(lines),
{
    let a = |l: Seq<u8>| line_entry(l);
    let b = |l: Seq<u8>| trimmed(decode_utf8(l));
    assert(lines.map_values(a) =~= lines.map_values(b));
    let f = |e: Seq<char>| is_pattern(e);
    let g = |e: Seq<char>| e.len() > 0 && e[0] != '#';
    assert(f =~= g);
}

/// Reading patterns from the lines of a file gives a set of just the patterns in
/// them, in order. It fails at the first line that is not UTF-8 or holds a pattern
/// that `globset` refuses, or where all of them together are too large, and only
/// then.
pub proof fn law_patterns_from(r: Result<GlobSet, PatternsError>, lines: Seq<Seq<u8>>)
    requires
        patterns_from(r, lines),
    ensures
        r matches Ok(set) ==> {
            &&& set_patterns(set) == patterns_in(lines)
            &&& forall|i: int| 0 <= i < lines.len() ==> valid_utf8(#[trigger] lines[i])
        },
        r matches Err(PatternsError::NotUtf8) ==> exists|n: int|
            0 <= n < lines.len() && !valid_utf8(#[trigger] lines[n]) && forall|i: int|
                0 <= i < n ==> valid_utf8(#[trigger] lines[i]),
        r matches Err(PatternsError::Glob(GlobError::Pattern { index, pattern, .. })) ==> exists|
            n: int,
        |
            0 <= n < lines.len() && pattern@ == trimmed(decode_utf8(#[trigger] lines[n]))
                && pattern@.len() > 0 && pattern@[0] != '#' && index == patterns_in(
                lines.take(n),
            ).len() && forall|i: int| 0 <= i <= n ==> valid_utf8(#[trigger] lines[i]),
        r matches Err(PatternsError::Glob(GlobError::Pattern { pattern, .. })) ==> (pattern@.contains(
            '[',
        ) || pattern@.contains('{') || pattern@.contains('}') || pattern@.contains('\\')) && exists|
            target: int,
        | !#[trigger] glob_parses(target, pattern@),
        r matches Err(PatternsError::Glob(GlobError::TooLarge { .. })) ==> patterns_in(lines)
            != seq!["**"@] && patterns_in(lines) != seq!["**/*.*"@] && exists|target: int|
            !#[trigger] globs_fit(target, patterns_in(lines)),
        r matches Err(PatternsError::Glob(GlobError::TooLarge { .. })) ==> patterns_in(lines).len()
            > 0 && forall|i: int| 0 <= i < lines.len() ==> valid_utf8(#[trigger] lines[i]),
        patterns_in(lines).len() == 0 && (forall|i: int|
            0 <= i < lines.len() ==> valid_utf8(#[trigger] lines[i])) ==> r is Ok,
{
    let target = choose|target: int| patterns_on(target, r, lines);
    assert(patterns_on(target, r, lines));
    lemma_patterns_in(lines);
    assert forall|n: int| #[trigger] good_before(target, lines, n) implies pattern_entries(
        lines.take(n),
    ) == patterns_in(lines.take(n)) && forall|i: int|
        0 <= i < n ==> valid_utf8(#[trigger] lines[i]) by {
        lemma_patterns_in(lines.take(n));
        assert forall|i: int| 0 <= i < n implies valid_utf8(#[trigger] lines[i]) by {
            assert(lines.take(n)[i] == lines[i]);
        }
    }
    match r {
        Err(PatternsError::Glob(GlobError::Pattern { index, pattern, .. })) => {
            let n = choose|n: int| #[trigger]
                good_before(target, lines, n) && valid_utf8(lines[n]) && is_pattern(
                    line_entry(lines[n]),
                ) && pattern@ == line_entry(lines[n]) && !pattern_parses(
                    target,
                    pattern@,
                ) && index == pattern_entries(lines.take(n)).len();
            assert(good_before(target, lines, n));
            assert(pattern@ == trimmed(decode_utf8(lines[n])));
            assert(!glob_parses(target, pattern@));
            let k = choose|k: int|
                0 <= k < pattern@.len() && !(pattern@[k] != '[' && pattern@[k] != '{' && pattern@[k]
                    != '}' && pattern@[k] != '\\');
            assert(pattern@.contains(pattern@[k]));
            lemma_bad_pattern(target, lines, n);
        },
        Err(PatternsError::NotUtf8) => {
            let n = choose|n: int| #[trigger]
                good_before(target, lines, n) && !valid_utf8(lines[n]);
            assert(good_before(target, lines, n));
            assert(!valid_utf8(lines[n]));
        },
        Err(PatternsError::Glob(GlobError::TooLarge { .. })) => {
            assert(!globs_fit(target, patterns_in(lines)));
        },
        _ => {},
    }
}

} // verus!

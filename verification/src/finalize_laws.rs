//! What holds of the manifests that clients read, whatever the files are.

use globset::GlobSet;
use vstd::prelude::*;
use vstd::utf8::{decode_utf8, encode_utf8, is_ascii_chars, valid_utf8};

use crate::digest::{hex, md5};
use crate::finalize::{
    body_lines, entry_path, file_lines, filtered, first_five, frontend, left_out, line_entry,
    lines_text, manifest_entries, manifest_text, normal_entry, readable, sealed, stays,
    version_text,
};
use crate::globs::set_matches;
use crate::text::{
    contains_text, decimal, is_trimmed, lemma_lower_ascii, lower, occurs_at, replaced, split,
    trimmed, white_space,
};
use crate::text_laws::{
    law_join_undoes_split, law_lines_of_encoded_text, law_split_pieces, law_split_undoes_join,
    law_trimmed, lemma_contains_either, lemma_contains_prefix, lemma_join_prefix,
    lemma_line_has_no_line_feed, lemma_split_concat, lemma_split_whole, lemma_trim_return,
};

verus! {

/// Whether a line can stand in a manifest: it is not blank, has no white space at
/// its ends and no line feed in it.
pub open spec fn proper_line(line: Seq<char>) -> bool {
    is_trimmed(line) && !line.contains('\n')
}

/// Whether all lines can stand in a manifest.
pub open spec fn proper_lines(lines: Seq<Seq<char>>) -> bool {
    forall|i: int| 0 <= i < lines.len() ==> proper_line(#[trigger] lines[i])
}

/// Whether all entries are ASCII.
pub open spec fn ascii_entries(entries: Seq<Seq<char>>) -> bool {
    forall|i: int| 0 <= i < entries.len() ==> is_ascii_chars(#[trigger] entries[i])
}

/// The digits of a number are digits.
proof fn lemma_decimal_digits(n: nat)
    ensures
        decimal(n).len() > 0,
        forall|i: int| 0 <= i < decimal(n).len() ==> '0' <= #[trigger] decimal(n)[i] <= '9',
    decreases n,
{
    if n >= 10 {
        lemma_decimal_digits(n / 10);
    }
}

/// Hexadecimal digits are digits and the letters from `a` to `f`.
proof fn lemma_hex_digits(bytes: Seq<u8>)
    ensures
        hex(bytes).len() == 2 * bytes.len(),
        forall|i: int|
            0 <= i < hex(bytes).len() ==> ('0' <= #[trigger] hex(bytes)[i] <= '9' || 'a' <= hex(
                bytes,
            )[i] <= 'f'),
{
    assert forall|i: int| 0 <= i < hex(bytes).len() implies ('0' <= #[trigger] hex(bytes)[i] <= '9'
        || 'a' <= hex(bytes)[i] <= 'f') by {
        let b = bytes[i / 2] as int;
        assert(0 <= b / 16 < 16 && 0 <= b % 16 < 16);
    }
}

/// The version line has no line feed in it where the name has none.
proof fn lemma_version_line(version: u32, name: Seq<char>)
    requires
        !name.contains('\n'),
    ensures
        !version_text(version, name).contains('\n'),
{
    let d = decimal(version as nat);
    let h = hex(md5(d)@);
    lemma_decimal_digits(version as nat);
    lemma_hex_digits(md5(d)@);
    let v = version_text(version, name);
    if v.contains('\n') {
        let k = choose|k: int| 0 <= k < v.len() && v[k] == '\n';
        let a = d.len() as int;
        let b = a + 1 + h.len();
        if k < a {
            assert(v[k] == d[k]);
        } else if k > a && k < b {
            assert(v[k] == h[k - a - 1]);
        } else if k > b {
            assert(v[k] == name[k - b - 1]);
            assert(name.contains('\n'));
        }
    }
}

/// The beginning of a manifest has three lines, of which the last has no end yet.
proof fn lemma_header_lines(version: u32, name: Seq<char>)
    requires
        !name.contains('\n'),
    ensures
        split("[version]\r\n"@ + version_text(version, name) + "\r\n[files]"@, '\n').len() == 3,
{
    reveal_strlit("[version]\r\n");
    reveal_strlit("\r\n[files]");
    let a = "[version]\r\n"@.drop_last();
    let v = version_text(version, name).push('\r');
    let f = "\r\n[files]"@.skip(2);
    lemma_version_line(version, name);
    assert(!a.contains('\n'));
    assert(!f.contains('\n'));
    assert(!v.contains('\n')) by {
        if v.contains('\n') {
            let k = choose|k: int| 0 <= k < v.len() && v[k] == '\n';
            assert(version_text(version, name)[k] == '\n');
        }
    }
    lemma_split_whole(a, '\n');
    lemma_split_whole(v, '\n');
    lemma_split_whole(f, '\n');
    let tail = v.push('\n') + f;
    lemma_split_concat(v, f, '\n');
    lemma_split_concat(a, tail, '\n');
    assert("[version]\r\n"@ + version_text(version, name) + "\r\n[files]"@ =~= a.push('\n') + tail);
}

/// Below a header of three lines, the lines of a manifest stand one by one.
proof fn lemma_lines_text(head: Seq<char>, lines: Seq<Seq<char>>)
    requires
        split(head, '\n').len() == 3,
        proper_lines(lines),
    ensures
        ({
            let s = split(head + lines_text(lines), '\n');
            &&& s.len() == 3 + lines.len()
            &&& lines.len() > 0 ==> s.last() == lines.last()
            &&& forall|i: int| 0 <= i < lines.len() ==> trimmed(#[trigger] s[3 + i]) == lines[i]
        }),
    decreases lines.len(),
{
    if lines.len() == 0 {
        assert(head + lines_text(lines) =~= head);
    } else {
        reveal_strlit("\r\n");
        let front = lines.drop_last();
        let line = lines.last();
        assert(proper_line(lines[lines.len() - 1]));
        assert forall|i: int| 0 <= i < front.len() implies proper_line(#[trigger] front[i]) by {
            assert(proper_line(lines[i]));
        }
        lemma_lines_text(head, front);
        let y = head + lines_text(front);
        let before = split(y, '\n');
        let z = y.push('\r');
        lemma_split_whole(line, '\n');
        lemma_split_concat(z, line, '\n');
        assert(head + lines_text(lines) =~= z.push('\n') + line);
        assert(z.drop_last() =~= y);
        let s = split(head + lines_text(lines), '\n');
        assert(s =~= before.drop_last().push(before.last().push('\r')) + seq![line]);
        lemma_trim_return(line);
        assert forall|i: int| 0 <= i < lines.len() implies trimmed(#[trigger] s[3 + i])
            == lines[i] by {
            if i < front.len() - 1 {
                assert(s[3 + i] == before[3 + i]);
                assert(lines[i] == front[i]);
            } else if i == front.len() - 1 {
                assert(s[3 + i] == before.last().push('\r'));
                assert(proper_line(front[i]));
                lemma_trim_return(front[i]);
                assert(lines[i] == front[i]);
            }
        }
    }
}

/// Reading a manifest that was written gives back its lines: the header is passed
/// over, line ends are dropped, and nothing else is lost or added. The name of the
/// version must not have a line feed in it.
pub proof fn law_read_gives_back_written(version: u32, name: Seq<char>, lines: Seq<Seq<char>>)
    requires
        !name.contains('\n'),
        proper_lines(lines),
    ensures
        readable(body_lines(encode_utf8(manifest_text(version, name, lines)))),
        manifest_entries(encode_utf8(manifest_text(version, name, lines))) == lines,
{
    let text = manifest_text(version, name, lines);
    let head = "[version]\r\n"@ + version_text(version, name) + "\r\n[files]"@;
    lemma_header_lines(version, name);
    lemma_lines_text(head, lines);
    law_lines_of_encoded_text(text);
    let s = split(text, '\n');
    let bytes = encode_utf8(text);
    let body = body_lines(bytes);
    assert(file_lines(bytes).len() == s.len());
    assert(body.len() == lines.len());
    assert forall|i: int| 0 <= i < body.len() implies valid_utf8(#[trigger] body[i]) && line_entry(
        body[i],
    ) == lines[i] by {
        assert(body[i] == encode_utf8(s[3 + i]));
        vstd::utf8::encode_utf8_valid_utf8(s[3 + i]);
        vstd::utf8::encode_utf8_decode_utf8(s[3 + i]);
    }
    let all = body.map_values(|l: Seq<u8>| line_entry(l));
    assert(all =~= lines);
    let full = |e: Seq<char>| e.len() > 0;
    assert forall|i: int| 0 <= i < lines.len() implies full(#[trigger] lines[i]) by {
        assert(proper_line(lines[i]));
    }
    lemma_filter_all(lines, full);
}

/// A filter that every item passes keeps all.
proof fn lemma_filter_all<T>(s: Seq<T>, keep: spec_fn(T) -> bool)
    requires
        forall|i: int| 0 <= i < s.len() ==> keep(#[trigger] s[i]),
    ensures
        s.filter(keep) == s,
    decreases s.len(),
{
    reveal(Seq::filter);
    if s.len() > 0 {
        assert(keep(s[s.len() - 1]));
        assert forall|i: int| 0 <= i < s.drop_last().len() implies keep(
            #[trigger] s.drop_last()[i],
        ) by {
            assert(keep(s[i]));
        }
        lemma_filter_all(s.drop_last(), keep);
        assert(s.drop_last().push(s.last()) =~= s);
    } else {
        assert(s.filter(keep) =~= s);
    }
}

/// What a filter keeps is there before, and passes.
proof fn lemma_filter_from<T>(s: Seq<T>, keep: spec_fn(T) -> bool, i: int)
    requires
        0 <= i < s.filter(keep).len(),
    ensures
        s.contains(s.filter(keep)[i]),
        keep(s.filter(keep)[i]),
    decreases s.len(),
{
    reveal(Seq::filter);
    if s.len() > 0 {
        let front = s.drop_last();
        if i < front.filter(keep).len() {
            lemma_filter_from(front, keep, i);
            let x = front.filter(keep)[i];
            let k = choose|k: int| 0 <= k < front.len() && front[k] == x;
            assert(s[k] == x);
        } else {
            assert(s[s.len() - 1] == s.last());
        }
    }
}

/// What is read from a manifest can stand in a manifest.
pub proof fn law_entries_are_proper(bytes: Seq<u8>)
    requires
        readable(body_lines(bytes)),
    ensures
        proper_lines(manifest_entries(bytes)),
{
    broadcast use vstd::seq_lib::group_filter_ensures;

    let body = body_lines(bytes);
    let all = body.map_values(|l: Seq<u8>| line_entry(l));
    let full = |e: Seq<char>| e.len() > 0;
    let entries = manifest_entries(bytes);
    assert forall|i: int| 0 <= i < entries.len() implies proper_line(#[trigger] entries[i]) by {
        let e = entries[i];
        lemma_filter_from(all, full, i);
        let k = choose|k: int| 0 <= k < all.len() && all[k] == e;
        assert(e == line_entry(body[k]));
        assert(valid_utf8(body[k]));
        law_split_pieces(bytes, 0x0au8);
        assert(body[k] == file_lines(bytes)[3 + k]);
        lemma_line_has_no_line_feed(body[k]);
        law_trimmed(decode_utf8(body[k]));
    }
}

/// Cutting a sealed line gives its fields and its checksum.
proof fn lemma_sealed_fields(content: Seq<char>)
    ensures
        split(sealed(content), ',') == split(content, ',').push(hex(md5(content)@)),
{
    let h = hex(md5(content)@);
    lemma_hex_digits(md5(content)@);
    assert(!h.contains(','));
    lemma_split_whole(h, ',');
    lemma_split_concat(content, h, ',');
    assert(split(content, ',') + seq![h] =~= split(content, ',').push(h));
}

/// The first five fields of a line with five fields or more are what it begins
/// with, and are five.
proof fn lemma_first_five(line: Seq<char>)
    requires
        split(line, ',').len() >= 5,
    ensures
        split(first_five(line), ',') == split(line, ',').take(5),
        first_five(line).is_prefix_of(line),
{
    let parts = split(line, ',');
    law_split_pieces(line, ',');
    assert forall|i: int| 0 <= i < parts.take(5).len() implies !(#[trigger] parts.take(
        5,
    )[i]).contains(',') by {
        assert(parts.take(5)[i] == parts[i]);
    }
    law_split_undoes_join(parts.take(5), ',');
    lemma_join_prefix(parts, 5, ',');
    law_join_undoes_split(line, ',');
}

/// A pattern with a character that is no hexadecimal digit does not occur in
/// hexadecimal text.
proof fn lemma_not_in_hex(bytes: Seq<u8>, pattern: Seq<char>, k: int)
    requires
        0 <= k < pattern.len(),
        !('0' <= pattern[k] <= '9'),
        !('a' <= pattern[k] <= 'f'),
    ensures
        !contains_text(hex(bytes), pattern),
{
    if contains_text(hex(bytes), pattern) {
        let i = choose|i: int| occurs_at(hex(bytes), pattern, i);
        lemma_hex_digits(bytes);
        assert(hex(bytes).subrange(i, i + pattern.len())[k] == hex(bytes)[i + k]);
    }
}

/// The names that do not belong into a cache do not come in with a checksum, nor
/// by taking the first fields of a line.
proof fn lemma_sealed_not_left_out(line: Seq<char>)
    requires
        !left_out(line),
        split(line, ',').len() >= 5,
    ensures
        !left_out(sealed(first_five(line))),
{
    let content = first_five(line);
    let sum = md5(content)@;
    lemma_first_five(line);
    reveal_strlit(".git");
    reveal_strlit("generator_config.txt");
    reveal_strlit("generator_config_ci.txt");
    reveal_strlit("README.md");
    reveal_strlit("readme.md");
    lemma_part(line, content, sum, ".git"@, 0);
    lemma_part(line, content, sum, "generator_config.txt"@, 0);
    lemma_part(line, content, sum, "generator_config_ci.txt"@, 0);
    lemma_part(line, content, sum, "README.md"@, 0);
    lemma_part(line, content, sum, "readme.md"@, 0);
}

/// As [`lemma_sealed_not_left_out`], for one name.
proof fn lemma_part(
    line: Seq<char>,
    content: Seq<char>,
    sum: Seq<u8>,
    pattern: Seq<char>,
    k: int,
)
    requires
        content.is_prefix_of(line),
        !contains_text(line, pattern),
        !pattern.contains(','),
        0 <= k < pattern.len(),
        !('0' <= pattern[k] <= '9'),
        !('a' <= pattern[k] <= 'f'),
    ensures
        !contains_text(content.push(',') + hex(sum), pattern),
{
    lemma_not_in_hex(sum, pattern, k);
    if contains_text(content.push(',') + hex(sum), pattern) {
        lemma_contains_either(content, hex(sum), pattern);
        lemma_contains_prefix(line, content, pattern);
    }
}

/// Every line of a filtered trunk has six fields, of which the last is the checksum
/// of the first five, and names nothing that does not belong into a cache.
pub proof fn law_filtered_lines(entries: Seq<Seq<char>>, i: int)
    requires
        0 <= i < filtered(entries).len(),
    ensures
        split(filtered(entries)[i], ',').len() == 6,
        filtered(entries)[i] == sealed(first_five(filtered(entries)[i])),
        !left_out(filtered(entries)[i]),
{
    broadcast use vstd::seq_lib::group_filter_ensures;

    let keep = |e: Seq<char>| stays(e);
    let e = entries.filter(keep)[i];
    assert(keep(e));
    lemma_sealed_line(normal_entry(e));
    lemma_sealed_not_left_out(normal_entry(e));
}

/// Sealing the first five fields of a line makes a line with the same first five
/// fields.
proof fn lemma_sealed_line(line: Seq<char>)
    requires
        split(line, ',').len() >= 5,
    ensures
        split(sealed(first_five(line)), ',').len() == 6,
        first_five(sealed(first_five(line))) == first_five(line),
{
    let content = first_five(line);
    lemma_first_five(line);
    lemma_sealed_fields(content);
    let parts = split(sealed(content), ',');
    assert(parts.take(5) =~= split(content, ','));
    law_join_undoes_split(content, ',');
}

/// An ASCII entry in normal form is ASCII, has no backslash and no capital letter
/// in it, and is its own normal form.
proof fn lemma_normal_ascii(entry: Seq<char>)
    requires
        is_ascii_chars(entry),
    ensures
        normal_entry(entry).len() == entry.len(),
        is_ascii_chars(normal_entry(entry)),
        forall|i: int|
            0 <= i < entry.len() ==> (#[trigger] normal_entry(entry)[i]) != '\\' && !('A'
                <= normal_entry(entry)[i] <= 'Z') && (normal_entry(entry)[i] == '\n') == (entry[i]
                == '\n') && white_space(normal_entry(entry)[i]) == white_space(entry[i]),
{
    let r = replaced(entry, '\\', '/');
    assert(is_ascii_chars(r));
    lemma_lower_ascii(r);
}

/// ASCII text without backslashes and capital letters is its own normal form.
proof fn lemma_normal_stable(line: Seq<char>)
    requires
        is_ascii_chars(line),
        forall|i: int|
            0 <= i < line.len() ==> (#[trigger] line[i]) != '\\' && !('A' <= line[i] <= 'Z'),
    ensures
        normal_entry(line) == line,
{
    let r = replaced(line, '\\', '/');
    assert(r =~= line);
    assert(lower(line) =~= line);
}

/// The line that an ASCII entry becomes is ASCII and its own normal form.
proof fn lemma_ascii_line(entry: Seq<char>)
    requires
        is_ascii_chars(entry),
        stays(entry),
    ensures
        ({
            let line = sealed(first_five(normal_entry(entry)));
            &&& is_ascii_chars(line)
            &&& normal_entry(line) == line
            &&& proper_line(entry) ==> proper_line(line)
        }),
{
    let normal = normal_entry(entry);
    let content = first_five(normal);
    let sum = hex(md5(content)@);
    let line = sealed(content);
    lemma_normal_ascii(entry);
    lemma_first_five(normal);
    lemma_hex_digits(md5(content)@);
    assert(content == normal.subrange(0, content.len() as int));
    assert forall|i: int| 0 <= i < line.len() implies '\0' <= #[trigger] line[i] <= '\u{7f}'
        && line[i] != '\\' && !('A' <= line[i] <= 'Z') && (line[i] == '\n' ==> i < entry.len()
        && entry[i] == '\n') by {
        if i < content.len() {
            assert(line[i] == content[i]);
            assert(content[i] == normal[i]);
        } else if i > content.len() {
            assert(line[i] == sum[i - content.len() - 1]);
        }
    }
    lemma_normal_stable(line);
    if proper_line(entry) {
        assert(line.last() == sum[31]);
        if content.len() > 0 {
            assert(line[0] == normal[0]);
        } else {
            assert(line[0] == ',');
        }
        assert(is_trimmed(line));
        assert(!line.contains('\n')) by {
            if line.contains('\n') {
                let k = choose|k: int| 0 <= k < line.len() && line[k] == '\n';
                assert(entry[k] == '\n');
                assert(entry.contains('\n'));
            }
        }
    }
}

/// Whether all lines are in normal form.
pub open spec fn normal_lines(lines: Seq<Seq<char>>) -> bool {
    forall|i: int| 0 <= i < lines.len() ==> normal_entry(#[trigger] lines[i]) == lines[i]
}

/// Filtering a filtered trunk changes nothing, where its lines are their own
/// normal forms.
pub proof fn law_filter_idempotent(entries: Seq<Seq<char>>)
    requires
        normal_lines(filtered(entries)),
    ensures
        filtered(filtered(entries)) == filtered(entries),
{
    let keep = |e: Seq<char>| stays(e);
    let seal_it = |e: Seq<char>| sealed(first_five(normal_entry(e)));
    let lines = filtered(entries);
    assert forall|i: int| 0 <= i < lines.len() implies keep(#[trigger] lines[i]) && seal_it(
        lines[i],
    ) == lines[i] by {
        law_filtered_lines(entries, i);
    }
    lemma_filter_all(lines, keep);
    assert(lines.map_values(seal_it) =~= lines);
}

/// Where the entries of a trunk are ASCII, so are its filtered lines, which are
/// then their own normal forms and can stand in a manifest where the entries can.
pub proof fn law_ascii_lines_are_normal(entries: Seq<Seq<char>>)
    requires
        ascii_entries(entries),
    ensures
        ascii_entries(filtered(entries)),
        normal_lines(filtered(entries)),
        proper_lines(entries) ==> proper_lines(filtered(entries)),
{
    broadcast use vstd::seq_lib::group_filter_ensures;

    let keep = |e: Seq<char>| stays(e);
    let left = entries.filter(keep);
    let lines = filtered(entries);
    assert forall|i: int| 0 <= i < lines.len() implies is_ascii_chars(#[trigger] lines[i])
        && normal_entry(lines[i]) == lines[i] && (proper_lines(entries) ==> proper_line(
        lines[i],
    )) by {
        let e = left[i];
        lemma_filter_from(entries, keep, i);
        let k = choose|k: int| 0 <= k < entries.len() && entries[k] == e;
        assert(is_ascii_chars(entries[k]));
        if proper_lines(entries) {
            assert(proper_line(entries[k]));
        }
        lemma_ascii_line(e);
    }
}

/// Filtering a trunk in place can be done over and over: the trunk that is written
/// is read back as its filtered lines, and filtering it with the same version
/// changes nothing. This holds where the name of the version has no line feed in
/// it and the filtered lines are their own normal forms and can stand in a
/// manifest, as is so for ASCII entries.
pub proof fn law_filter_trunk_idempotent(trunk: Seq<u8>, version: u32, name: Seq<char>)
    requires
        readable(body_lines(trunk)),
        !name.contains('\n'),
        ascii_entries(manifest_entries(trunk)) || (normal_lines(filtered(manifest_entries(trunk)))
            && proper_lines(filtered(manifest_entries(trunk)))),
    ensures
        ({
            let text = manifest_text(version, name, filtered(manifest_entries(trunk)));
            let again = encode_utf8(text);
            &&& readable(body_lines(again))
            &&& manifest_entries(again) == filtered(manifest_entries(trunk))
            &&& manifest_text(version, name, filtered(manifest_entries(again))) == text
        }),
{
    let entries = manifest_entries(trunk);
    if ascii_entries(entries) {
        law_entries_are_proper(trunk);
        law_ascii_lines_are_normal(entries);
    }
    law_filter_idempotent(entries);
    law_read_gives_back_written(version, name, filtered(entries));
}

/// The frontend manifest lists just the lines of the trunk whose paths the patterns
/// match, as they are in the trunk.
pub proof fn law_frontend_is_part_of_trunk(
    entries: Seq<Seq<char>>,
    patterns: GlobSet,
    line: Seq<char>,
)
    ensures
        frontend(entries, patterns).contains(line) <==> entries.contains(line) && set_matches(
            patterns,
            entry_path(line),
        ),
        frontend(frontend(entries, patterns), patterns) == frontend(entries, patterns),
{
    broadcast use vstd::seq_lib::group_filter_ensures;

    let keep = |e: Seq<char>| set_matches(patterns, entry_path(e));
    let picked = frontend(entries, patterns);
    if picked.contains(line) {
        let k = choose|k: int| 0 <= k < picked.len() && picked[k] == line;
        lemma_filter_from(entries, keep, k);
    }
    if entries.contains(line) && keep(line) {
        let k = choose|k: int| 0 <= k < entries.len() && entries[k] == line;
        assert(keep(entries[k]));
    }
    lemma_filter_all(picked, keep);
}

/// A frontend manifest that was written from a trunk is read back as the lines that
/// were picked.
pub proof fn law_frontend_reads_back(
    trunk: Seq<u8>,
    patterns: GlobSet,
    version: u32,
    name: Seq<char>,
)
    requires
        readable(body_lines(trunk)),
        !name.contains('\n'),
    ensures
        ({
            let lines = frontend(manifest_entries(trunk), patterns);
            manifest_entries(encode_utf8(manifest_text(version, name, lines))) == lines
        }),
{
    broadcast use vstd::seq_lib::group_filter_ensures;

    let entries = manifest_entries(trunk);
    let lines = frontend(entries, patterns);
    let keep = |e: Seq<char>| set_matches(patterns, entry_path(e));
    law_entries_are_proper(trunk);
    assert forall|i: int| 0 <= i < lines.len() implies proper_line(#[trigger] lines[i]) by {
        lemma_filter_from(entries, keep, i);
        let k = choose|k: int| 0 <= k < entries.len() && entries[k] == lines[i];
        assert(proper_line(entries[k]));
    }
    law_read_gives_back_written(version, name, lines);
}

} // verus!

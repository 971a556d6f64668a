//! What the operations on text mean: cutting, joining, trimming, searching, case,
//! numbers and encoding.

use vstd::prelude::*;
use vstd::utf8::{decode_utf8, encode_scalar, encode_utf8, is_ascii_chars, valid_utf8};

use crate::text::{
    byte_views, contains_text, decimal, is_trimmed, joined, lower, lowercase, occurs_at, replaced,
    split, split_first, split_last, texts, trimmed, white_space,
};

verus! {

/// Cutting gives at least one piece, and no piece has the separator in it.
pub proof fn law_split_pieces<T>(s: Seq<T>, sep: T)
    ensures
        split(s, sep).len() >= 1,
        forall|i: int| 0 <= i < split(s, sep).len() ==> !(#[trigger] split(s, sep)[i]).contains(sep),
    decreases s.len(),
{
    if s.len() == 0 {
        assert(!Seq::<T>::empty().contains(sep));
    } else {
        let before = split(s.drop_last(), sep);
        law_split_pieces(s.drop_last(), sep);
        if s.last() != sep {
            let last = before.last();
            assert forall|i: int| 0 <= i < split(s, sep).len() implies !(#[trigger] split(
                s,
                sep,
            )[i]).contains(sep) by {
                if i < before.len() - 1 {
                    assert(split(s, sep)[i] == before[i]);
                } else {
                    assert(!before[before.len() - 1].contains(sep));
                    assert forall|k: int| 0 <= k < last.len() implies last[k] != sep by {
                        assert(last.contains(last[k]));
                    }
                    assert(split(s, sep)[i] == last.push(s.last()));
                }
            }
        } else {
            assert forall|i: int| 0 <= i < split(s, sep).len() implies !(#[trigger] split(
                s,
                sep,
            )[i]).contains(sep) by {
                if i < before.len() {
                    assert(split(s, sep)[i] == before[i]);
                }
            }
        }
    }
}

/// Joining what was cut gives back the text.
pub proof fn law_join_undoes_split<T>(s: Seq<T>, sep: T)
    ensures
        joined(split(s, sep), sep) == s,
    decreases s.len(),
{
    if s.len() > 0 {
        let front = s.drop_last();
        let before = split(front, sep);
        law_join_undoes_split(front, sep);
        law_split_pieces(front, sep);
        if s.last() == sep {
            assert(split(s, sep).drop_last() =~= before);
            assert(joined(split(s, sep), sep) =~= s);
        } else {
            let after = split(s, sep);
            assert(after.drop_last() =~= before.drop_last());
            if before.len() == 1 {
                assert(joined(after, sep) =~= before[0].push(s.last()));
            } else {
                assert(joined(after, sep) =~= joined(before, sep).push(s.last()));
            }
            assert(front.push(s.last()) =~= s);
        }
    } else {
        assert(joined(split(s, sep), sep) =~= s);
    }
}

/// Text without the separator is one piece.
pub proof fn lemma_split_whole<T>(s: Seq<T>, sep: T)
    requires
        !s.contains(sep),
    ensures
        split(s, sep) == seq![s],
    decreases s.len(),
{
    if s.len() == 0 {
        assert(s =~= Seq::<T>::empty());
    } else {
        assert(s.contains(s[s.len() - 1]));
        assert(!s.drop_last().contains(sep)) by {
            if s.drop_last().contains(sep) {
                let k = choose|k: int| 0 <= k < s.drop_last().len() && s.drop_last()[k] == sep;
                assert(s[k] == sep);
            }
        }
        lemma_split_whole(s.drop_last(), sep);
        assert(s.drop_last().push(s.last()) =~= s);
        assert(split(s, sep) =~= seq![s]);
    }
}

/// Two texts with a separator between them have the pieces of both.
pub proof fn lemma_split_concat<T>(a: Seq<T>, b: Seq<T>, sep: T)
    ensures
        split(a.push(sep) + b, sep) == split(a, sep) + split(b, sep),
    decreases b.len(),
{
    let whole = a.push(sep) + b;
    law_split_pieces(a, sep);
    law_split_pieces(b, sep);
    if b.len() == 0 {
        assert(whole.drop_last() =~= a);
        assert(split(whole, sep) =~= split(a, sep) + split(b, sep));
    } else {
        lemma_split_concat(a, b.drop_last(), sep);
        law_split_pieces(b.drop_last(), sep);
        assert(whole.drop_last() =~= a.push(sep) + b.drop_last());
        assert(whole.last() == b.last());
        assert(split(whole, sep) =~= split(a, sep) + split(b, sep));
    }
}

/// Cutting what was joined from pieces without the separator gives back the pieces.
pub proof fn law_split_undoes_join<T>(parts: Seq<Seq<T>>, sep: T)
    requires
        parts.len() > 0,
        forall|i: int| 0 <= i < parts.len() ==> !(#[trigger] parts[i]).contains(sep),
    ensures
        split(joined(parts, sep), sep) == parts,
    decreases parts.len(),
{
    assert(!parts[parts.len() - 1].contains(sep));
    lemma_split_whole(parts.last(), sep);
    if parts.len() == 1 {
        assert(parts =~= seq![parts[0]]);
    } else {
        let front = parts.drop_last();
        assert forall|i: int| 0 <= i < front.len() implies !(#[trigger] front[i]).contains(sep) by {
            assert(parts[i] == front[i]);
        }
        law_split_undoes_join(front, sep);
        lemma_split_concat(joined(front, sep), parts.last(), sep);
        assert(front + seq![parts.last()] =~= parts);
    }
}

/// The first pieces joined are how all pieces joined begin.
pub proof fn lemma_join_prefix<T>(parts: Seq<Seq<T>>, n: int, sep: T)
    requires
        1 <= n <= parts.len(),
    ensures
        joined(parts.take(n), sep).is_prefix_of(joined(parts, sep)),
    decreases parts.len(),
{
    if n == parts.len() {
        assert(parts.take(n) =~= parts);
    } else {
        let front = parts.drop_last();
        lemma_join_prefix(front, n, sep);
        assert(front.take(n) =~= parts.take(n));
        let p = joined(parts.take(n), sep);
        let f = joined(front, sep);
        let w = joined(parts, sep);
        assert(w =~= f.push(sep) + parts.last());
        assert(p == f.subrange(0, p.len() as int));
        assert(p =~= w.subrange(0, p.len() as int));
    }
}

/// Trimming leaves nothing, or text without white space at its ends; and what is
/// left is a part of the text.
pub proof fn law_trimmed(s: Seq<char>)
    ensures
        trimmed(s).len() == 0 || is_trimmed(trimmed(s)),
        forall|c: char| #[trigger] trimmed(s).contains(c) ==> s.contains(c),
        trimmed(trimmed(s)) == trimmed(s),
    decreases s.len(),
{
    if s.len() > 0 {
        if white_space(s.first()) {
            let t = s.drop_first();
            law_trimmed(t);
            assert forall|c: char| #[trigger] trimmed(s).contains(c) implies s.contains(c) by {
                assert(t.contains(c));
                let k = choose|k: int| 0 <= k < t.len() && t[k] == c;
                assert(s[k + 1] == c);
            }
        } else if white_space(s.last()) {
            let t = s.drop_last();
            law_trimmed(t);
            assert forall|c: char| #[trigger] trimmed(s).contains(c) implies s.contains(c) by {
                assert(t.contains(c));
                let k = choose|k: int| 0 <= k < t.len() && t[k] == c;
                assert(s[k] == c);
            }
        }
    }
}

/// A carriage return behind trimmed text is trimmed away.
pub proof fn lemma_trim_return(s: Seq<char>)
    requires
        is_trimmed(s),
    ensures
        trimmed(s) == s,
        trimmed(s.push('\r')) == s,
{
    let t = s.push('\r');
    assert(white_space('\r'));
    assert(t.drop_last() =~= s);
    assert(t.first() == s.first());
    assert(t.last() == '\r');
    assert(trimmed(s) == s);
    assert(trimmed(t) == trimmed(t.drop_last()));
}

/// The bytes of one character: a line feed is one byte, and no other character has
/// that byte in it.
proof fn lemma_scalar_bytes(c: char)
    ensures
        c == '\n' ==> encode_scalar(c as u32) == seq![0x0au8],
        c != '\n' ==> !encode_scalar(c as u32).contains(0x0au8),
{
    let v = c as u32;
    vstd::utf8::char_is_scalar(c);
    assert(v <= 0x7f ==> (v & 0x7f) as u8 == v) by (bit_vector);
    assert(0xc0u8 | (((v >> 6) & 0x1f) as u8) >= 0x80) by (bit_vector);
    assert(0xe0u8 | (((v >> 12) & 0x0f) as u8) >= 0x80) by (bit_vector);
    assert(0xf0u8 | (((v >> 18) & 0x7) as u8) >= 0x80) by (bit_vector);
    assert(0x80u8 | ((v & 0x3f) as u8) >= 0x80) by (bit_vector);
    assert(0x80u8 | (((v >> 6) & 0x3f) as u8) >= 0x80) by (bit_vector);
    assert(0x80u8 | (((v >> 12) & 0x3f) as u8) >= 0x80) by (bit_vector);
    if c == '\n' {
        assert(encode_scalar(v) =~= seq![0x0au8]);
    }
}

/// One more character adds its bytes at the end.
proof fn lemma_encode_push(s: Seq<char>, c: char)
    ensures
        encode_utf8(s.push(c)) == encode_utf8(s) + encode_scalar(c as u32),
    decreases s.len(),
{
    let t = s.push(c);
    if s.len() == 0 {
        assert(t.drop_first() =~= Seq::<char>::empty());
        assert(encode_utf8(t.drop_first()).len() == 0);
        assert(encode_utf8(t) =~= encode_utf8(s) + encode_scalar(c as u32));
    } else {
        lemma_encode_push(s.drop_first(), c);
        assert(t.drop_first() =~= s.drop_first().push(c));
        assert(encode_utf8(t) =~= encode_utf8(s) + encode_scalar(c as u32));
    }
}

/// Bytes without the separator behind others lengthen the last piece.
proof fn lemma_split_append<T>(a: Seq<T>, b: Seq<T>, sep: T)
    requires
        !b.contains(sep),
    ensures
        split(a + b, sep) == split(a, sep).drop_last().push(split(a, sep).last() + b),
    decreases b.len(),
{
    law_split_pieces(a, sep);
    let whole = a + b;
    if b.len() == 0 {
        assert(whole =~= a);
        assert(split(a, sep).last() + b =~= split(a, sep).last());
        assert(split(whole, sep) =~= split(a, sep).drop_last().push(split(a, sep).last() + b));
    } else {
        let front = b.drop_last();
        assert(b.contains(b[b.len() - 1]));
        assert(!front.contains(sep)) by {
            if front.contains(sep) {
                let k = choose|k: int| 0 <= k < front.len() && front[k] == sep;
                assert(b[k] == sep);
            }
        }
        lemma_split_append(a, front, sep);
        assert(whole.drop_last() =~= a + front);
        assert(whole.last() == b.last());
        let last = split(a, sep).last();
        assert((last + front).push(b.last()) =~= last + b);
        assert(split(whole, sep) =~= split(a, sep).drop_last().push(last + b));
    }
}

/// The lines of encoded text are the encoded lines of the text.
pub proof fn law_lines_of_encoded_text(s: Seq<char>)
    ensures
        split(encode_utf8(s), 0x0au8) == split(s, '\n').map_values(|l: Seq<char>| encode_utf8(l)),
    decreases s.len(),
{
    let enc = |l: Seq<char>| encode_utf8(l);
    if s.len() == 0 {
        assert(split(encode_utf8(s), 0x0au8) =~= split(s, '\n').map_values(enc));
    } else {
        let front = s.drop_last();
        let c = s.last();
        law_lines_of_encoded_text(front);
        law_split_pieces(front, '\n');
        assert(front.push(c) =~= s);
        lemma_encode_push(front, c);
        lemma_scalar_bytes(c);
        let bytes = encode_utf8(front);
        let tail = encode_scalar(c as u32);
        let before = split(front, '\n');
        if c == '\n' {
            assert(encode_utf8(s).drop_last() =~= bytes);
            assert(encode_utf8(s).last() == 0x0au8);
            assert(split(encode_utf8(s), 0x0au8) =~= split(s, '\n').map_values(enc));
        } else {
            lemma_split_append(bytes, tail, 0x0au8);
            lemma_encode_push(before.last(), c);
            assert(split(encode_utf8(s), 0x0au8) =~= split(s, '\n').map_values(enc));
        }
    }
}

/// Text that has a line feed in it has the byte of a line feed in its encoding.
proof fn lemma_line_feed_encoded(s: Seq<char>)
    requires
        s.contains('\n'),
    ensures
        encode_utf8(s).contains(0x0au8),
    decreases s.len(),
{
    let front = s.drop_last();
    let c = s.last();
    assert(front.push(c) =~= s);
    lemma_encode_push(front, c);
    lemma_scalar_bytes(c);
    let bytes = encode_utf8(s);
    if c == '\n' {
        assert(bytes[bytes.len() - 1] == 0x0au8);
    } else {
        let k = choose|k: int| 0 <= k < s.len() && s[k] == '\n';
        assert(front[k] == '\n');
        lemma_line_feed_encoded(front);
        let f = encode_utf8(front);
        let j = choose|j: int| 0 <= j < f.len() && f[j] == 0x0au8;
        assert(bytes[j] == 0x0au8);
    }
}

/// The text of a line has no line feed in it.
pub proof fn lemma_line_has_no_line_feed(line: Seq<u8>)
    requires
        valid_utf8(line),
        !line.contains(0x0au8),
    ensures
        !decode_utf8(line).contains('\n'),
{
    vstd::utf8::decode_utf8_encode_utf8(line);
    if decode_utf8(line).contains('\n') {
        lemma_line_feed_encoded(decode_utf8(line));
    }
}

/// What occurs in the beginning of a text occurs in the text.
pub proof fn lemma_contains_prefix(s: Seq<char>, front: Seq<char>, pattern: Seq<char>)
    requires
        front.is_prefix_of(s),
        contains_text(front, pattern),
    ensures
        contains_text(s, pattern),
{
    let i = choose|i: int| occurs_at(front, pattern, i);
    assert(front == s.subrange(0, front.len() as int));
    assert(s.subrange(i, i + pattern.len()) =~= front.subrange(i, i + pattern.len()));
    assert(occurs_at(s, pattern, i));
}

/// What occurs in two texts with a comma between them and has no comma in it
/// occurs in one of the two.
pub proof fn lemma_contains_either(a: Seq<char>, b: Seq<char>, pattern: Seq<char>)
    requires
        contains_text(a.push(',') + b, pattern),
        !pattern.contains(','),
    ensures
        contains_text(a, pattern) || contains_text(b, pattern),
{
    let s = a.push(',') + b;
    let i = choose|i: int| occurs_at(s, pattern, i);
    let n = a.len() as int;
    if i <= n < i + pattern.len() {
        assert(s.subrange(i, i + pattern.len())[n - i] == ',');
        assert(pattern[n - i] == ',');
    } else if i + pattern.len() <= n {
        assert(a.subrange(i, i + pattern.len()) =~= s.subrange(i, i + pattern.len()));
        assert(occurs_at(a, pattern, i));
    } else {
        let j = i - n - 1;
        assert(b.subrange(j, j + pattern.len()) =~= s.subrange(i, i + pattern.len()));
        assert(occurs_at(b, pattern, j));
    }
}

/// ASCII letters are made small one by one and other ASCII characters stay. For
/// other text nothing but the outside name of the result is known.
pub proof fn law_lower(s: Seq<char>)
    ensures
        is_ascii_chars(s) ==> lower(s).len() == s.len(),
        forall|i: int|
            is_ascii_chars(s) && 0 <= i < s.len() && 'A' <= #[trigger] s[i] <= 'Z' ==> lower(
                s,
            )[i] as int == s[i] as int + 32,
        forall|i: int|
            is_ascii_chars(s) && 0 <= i < s.len() && !('A' <= #[trigger] s[i] <= 'Z') ==> lower(
                s,
            )[i] == s[i],
        !is_ascii_chars(s) ==> lower(s) == lowercase(s),
{
}

/// Replacing a character changes it everywhere and nothing else.
pub proof fn law_replaced(s: Seq<char>, from: char, to: char)
    ensures
        replaced(s, from, to).len() == s.len(),
        forall|i: int| 0 <= i < s.len() && s[i] == from ==> #[trigger] replaced(s, from, to)[i] == to,
        forall|i: int|
            0 <= i < s.len() && s[i] != from ==> #[trigger] replaced(s, from, to)[i] == s[i],
{
}

/// A text contains what was put between two other texts.
pub proof fn law_contains_what_was_put_in(a: Seq<char>, pattern: Seq<char>, b: Seq<char>)
    ensures
        contains_text(a + pattern + b, pattern),
{
    let s = a + pattern + b;
    let i = a.len() as int;
    assert(s.subrange(i, i + pattern.len()) =~= pattern);
    assert(occurs_at(s, pattern, i));
}

/// What a text contains can be cut out of it, leaving a text before and a text
/// behind.
pub proof fn law_contained_can_be_cut_out(s: Seq<char>, pattern: Seq<char>)
    requires
        contains_text(s, pattern),
    ensures
        exists|a: Seq<char>, b: Seq<char>| s == #[trigger] (a + pattern + b),
{
    let i = choose|i: int| occurs_at(s, pattern, i);
    let a = s.take(i);
    let b = s.skip(i + pattern.len());
    assert forall|k: int| 0 <= k < pattern.len() implies s[i + k] == pattern[k] by {
        assert(s.subrange(i, i + pattern.len())[k] == s[i + k]);
    }
    assert(s =~= a + pattern + b);
}

/// White space is the space, the line and page controls of ASCII, and the other
/// characters that Unicode counts as such.
pub proof fn law_white_space(c: char)
    ensures
        white_space(c) <==> ({
            let u = c as int;
            u == 9 || u == 10 || u == 11 || u == 12 || u == 13 || u == 32 || u == 133 || u == 160
                || u == 5760 || 8192 <= u <= 8202 || u == 8232 || u == 8233 || u == 8239 || u
                == 8287 || u == 12288
        }),
{
}

/// Trimming takes off the white space around a text, all of it and nothing else.
pub proof fn law_trim_takes_off_white_space(a: Seq<char>, s: Seq<char>, b: Seq<char>)
    requires
        forall|i: int| 0 <= i < a.len() ==> white_space(#[trigger] a[i]),
        forall|i: int| 0 <= i < b.len() ==> white_space(#[trigger] b[i]),
        s.len() > 0 ==> !white_space(s[0]) && !white_space(s[s.len() - 1]),
    ensures
        trimmed(a + s + b) == s,
    decreases a.len() + b.len(),
{
    let t = a + s + b;
    if a.len() > 0 {
        assert(t.first() == a[0]);
        assert(t.drop_first() =~= a.drop_first() + s + b);
        assert forall|i: int| 0 <= i < a.drop_first().len() implies white_space(
            #[trigger] a.drop_first()[i],
        ) by {
            assert(white_space(a[i + 1]));
        }
        law_trim_takes_off_white_space(a.drop_first(), s, b);
    } else if b.len() > 0 {
        assert(t.last() == b[b.len() - 1]);
        assert(t.drop_last() =~= a + s + b.drop_last());
        assert forall|i: int| 0 <= i < b.drop_last().len() implies white_space(
            #[trigger] b.drop_last()[i],
        ) by {
            assert(white_space(b[i]));
        }
        law_trim_takes_off_white_space(a, s, b.drop_last());
        if s.len() == 0 {
            assert(t =~= b);
            lemma_all_white(t);
        } else {
            assert(t.first() == s[0]);
        }
    } else {
        assert(t =~= s);
    }
}

/// Nothing is left of white space.
proof fn lemma_all_white(s: Seq<char>)
    requires
        forall|i: int| 0 <= i < s.len() ==> white_space(#[trigger] s[i]),
    ensures
        trimmed(s) == Seq::<char>::empty(),
    decreases s.len(),
{
    if s.len() > 0 {
        assert forall|i: int| 0 <= i < s.drop_first().len() implies white_space(
            #[trigger] s.drop_first()[i],
        ) by {
            assert(white_space(s[i + 1]));
        }
        assert(white_space(s[0]));
        lemma_all_white(s.drop_first());
    } else {
        assert(s =~= Seq::<char>::empty());
    }
}

/// Cutting at the first separator undoes putting one behind a text that has none.
pub proof fn law_split_first(a: Seq<char>, sep: char, b: Seq<char>)
    requires
        !a.contains(sep),
    ensures
        split_first(a, sep) == (a, None::<Seq<char>>),
        split_first(a.push(sep) + b, sep) == (a, Some(b)),
{
    let s = a.push(sep) + b;
    assert(s[a.len() as int] == sep);
    assert(s.contains(sep));
    s.index_of_first_ensures(sep);
    let i = s.index_of_first(sep)->0;
    if i < a.len() {
        assert(a[i] == sep);
    }
    assert(i == a.len());
    assert(s.take(i) =~= a);
    assert(s.skip(i + 1) =~= b);
}

/// Cutting at the last separator undoes putting one before a text that has none.
pub proof fn law_split_last(a: Seq<char>, sep: char, b: Seq<char>)
    requires
        !b.contains(sep),
    ensures
        split_last(b, sep) is None,
        split_last(a.push(sep) + b, sep) == Some((a, b)),
{
    let s = a.push(sep) + b;
    assert(s[a.len() as int] == sep);
    assert(s.contains(sep));
    s.index_of_last_ensures(sep);
    let i = s.index_of_last(sep)->0;
    if i > a.len() {
        assert(b[i - a.len() - 1] == sep);
    }
    assert(i == a.len());
    assert(s.take(i) =~= a);
    assert(s.skip(i + 1) =~= b);
}

/// A piece is joined to others by one separator and itself.
pub proof fn law_join_one_more<T>(parts: Seq<Seq<T>>, piece: Seq<T>, sep: T)
    ensures
        joined(seq![piece], sep) == piece,
        parts.len() > 0 ==> joined(parts.push(piece), sep) == joined(parts, sep) + seq![sep] + piece,
{
    assert(parts.push(piece).drop_last() =~= parts);
    assert(joined(parts, sep).push(sep) =~= joined(parts, sep) + seq![sep]);
}

/// The number that a sequence of decimal digits stands for.
pub open spec fn value_of(digits: Seq<char>) -> int
    decreases digits.len(),
{
    if digits.len() == 0 {
        0
    } else {
        10 * value_of(digits.drop_last()) + (digits.last() as int - '0' as int)
    }
}

/// A number in decimal is made of digits, stands for the number, and has no zero
/// before it.
pub proof fn law_decimal(n: nat)
    ensures
        decimal(n).len() > 0,
        forall|i: int| 0 <= i < decimal(n).len() ==> '0' <= #[trigger] decimal(n)[i] <= '9',
        value_of(decimal(n)) == n,
        decimal(n).len() > 1 ==> decimal(n)[0] != '0',
        n > 0 ==> decimal(n)[0] != '0',
    decreases n,
{
    reveal_with_fuel(value_of, 2);
    if n >= 10 {
        law_decimal(n / 10);
        assert(decimal(n).drop_last() =~= decimal(n / 10));
    } else {
        assert(decimal(n).drop_last() =~= Seq::<char>::empty());
    }
}

/// A list of strings stands for their texts, one by one.
pub proof fn law_texts(list: Seq<String>)
    ensures
        texts(list).len() == list.len(),
        forall|i: int| 0 <= i < list.len() ==> #[trigger] texts(list)[i] == list[i]@,
{
}

/// A list of byte strings stands for their bytes, one by one.
pub proof fn law_byte_views(list: Seq<Vec<u8>>)
    ensures
        byte_views(list).len() == list.len(),
        forall|i: int| 0 <= i < list.len() ==> #[trigger] byte_views(list)[i] == list[i]@,
{
}

} // verus!

//! The files of a manifest: an ordered map from path to file record.

use vstd::prelude::*;
use vstd::utf8::encode_utf8;

use crate::digest::FileLine;

verus! {

/// Whether `a` comes before `b` because of what stands at position `k`: they
/// agree up to there, and then `a` ends or has the smaller byte.
pub open spec fn less_at(a: Seq<u8>, b: Seq<u8>, k: int) -> bool {
    &&& 0 <= k <= a.len()
    &&& k < b.len()
    &&& forall|j: int| 0 <= j < k ==> a[j] == b[j]
    &&& k == a.len() || a[k] < b[k]
}

/// The order of paths: that of their UTF-8 bytes, as in a dictionary.
pub open spec fn path_less(a: Seq<char>, b: Seq<char>) -> bool {
    exists|k: int| less_at(encode_utf8(a), encode_utf8(b), k)
}

/// Whether the paths of a list of records come in strictly increasing order.
pub open spec fn sorted(pairs: Seq<(Seq<char>, FileLine)>) -> bool {
    forall|i: int, j: int| 0 <= i < j < pairs.len() ==> path_less(pairs[i].0, pairs[j].0)
}

/// Whether some record of the list has the given path.
pub open spec fn has_path(pairs: Seq<(Seq<char>, FileLine)>, path: Seq<char>) -> bool {
    exists|i: int| 0 <= i < pairs.len() && (#[trigger] pairs[i]).0 == path
}

/// The map that a list of records stands for.
pub open spec fn map_of(pairs: Seq<(Seq<char>, FileLine)>) -> Map<Seq<char>, FileLine> {
    Map::new(
        |path: Seq<char>| has_path(pairs, path),
        |path: Seq<char>|
            pairs[choose|i: int| 0 <= i < pairs.len() && (#[trigger] pairs[i]).0 == path].1,
    )
}

/// No path comes before itself, and the order is transitive.
pub proof fn law_path_order(a: Seq<char>, b: Seq<char>, c: Seq<char>)
    ensures
        !path_less(a, a),
        path_less(a, b) && path_less(b, c) ==> path_less(a, c),
        path_less(a, b) || path_less(b, a) || a == b,
{
    let x = encode_utf8(a);
    let y = encode_utf8(b);
    let z = encode_utf8(c);
    if path_less(a, b) && path_less(b, c) {
        let k = choose|k: int| less_at(x, y, k);
        let l = choose|l: int| less_at(y, z, l);
        let m = if k < l {
            k
        } else {
            l
        };
        assert(less_at(x, z, m));
    }
    lemma_total(a, b, 0);
}

/// Of two paths the one comes first that has the smaller byte where they begin to
/// differ, or ends there.
pub proof fn law_path_less(a: Seq<char>, b: Seq<char>, k: int)
    requires
        0 <= k <= encode_utf8(a).len(),
        k < encode_utf8(b).len(),
        forall|j: int| 0 <= j < k ==> encode_utf8(a)[j] == encode_utf8(b)[j],
        k == encode_utf8(a).len() || encode_utf8(a)[k] < encode_utf8(b)[k],
    ensures
        path_less(a, b),
        !path_less(b, a),
{
    assert(less_at(encode_utf8(a), encode_utf8(b), k));
    law_path_order(b, a, b);
}

/// Two paths that agree on their first `k` bytes are ordered one way or the
/// other, or are the same.
proof fn lemma_total(a: Seq<char>, b: Seq<char>, k: int)
    requires
        0 <= k <= encode_utf8(a).len(),
        k <= encode_utf8(b).len(),
        forall|j: int| 0 <= j < k ==> encode_utf8(a)[j] == encode_utf8(b)[j],
    ensures
        path_less(a, b) || path_less(b, a) || a == b,
    decreases encode_utf8(a).len() - k,
{
    let x = encode_utf8(a);
    let y = encode_utf8(b);
    if k < x.len() && k < y.len() && x[k] == y[k] {
        lemma_total(a, b, k + 1);
    } else if k == x.len() && k == y.len() {
        assert(x =~= y);
        vstd::utf8::encode_utf8_decode_utf8(a);
        vstd::utf8::encode_utf8_decode_utf8(b);
    } else if k == x.len() || (k < y.len() && x[k] < y[k]) {
        assert(less_at(x, y, k));
    } else {
        assert(less_at(y, x, k));
    }
}

/// Each record of a sorted list is what the map holds under its path.
proof fn lemma_map_of_entry(pairs: Seq<(Seq<char>, FileLine)>, i: int)
    requires
        sorted(pairs),
        0 <= i < pairs.len(),
    ensures
        map_of(pairs).contains_key(pairs[i].0),
        map_of(pairs)[pairs[i].0] == pairs[i].1,
{
    let path = pairs[i].0;
    assert(has_path(pairs, path));
    let j = choose|j: int| 0 <= j < pairs.len() && (#[trigger] pairs[j]).0 == path;
    law_path_order(path, path, path);
    if i < j {
        assert(path_less(pairs[i].0, pairs[j].0));
    } else if j < i {
        assert(path_less(pairs[j].0, pairs[i].0));
    }
}

/// A map has as many paths as the sorted list that it stands for has records.
proof fn lemma_map_of_len(pairs: Seq<(Seq<char>, FileLine)>)
    requires
        sorted(pairs),
    ensures
        map_of(pairs).dom().finite(),
        map_of(pairs).len() == pairs.len(),
    decreases pairs.len(),
{
    if pairs.len() == 0 {
        assert(map_of(pairs).dom() =~= Set::<Seq<char>>::empty());
    } else {
        let front = pairs.drop_last();
        let path = pairs.last().0;
        lemma_map_of_len(front);
        assert forall|p: Seq<char>| has_path(pairs, p) == (has_path(front, p) || p == path) by {
            if has_path(front, p) {
                let i = choose|i: int| 0 <= i < front.len() && (#[trigger] front[i]).0 == p;
                assert(pairs[i].0 == p);
            }
            assert(pairs[pairs.len() - 1].0 == path);
            if has_path(pairs, p) && p != path {
                let i = choose|i: int| 0 <= i < pairs.len() && (#[trigger] pairs[i]).0 == p;
                assert(front[i].0 == p);
            }
        }
        assert(map_of(pairs).dom() =~= map_of(front).dom().insert(path));
        assert(!has_path(front, path)) by {
            if has_path(front, path) {
                let i = choose|i: int| 0 <= i < front.len() && (#[trigger] front[i]).0 == path;
                assert(path_less(pairs[i].0, pairs[pairs.len() - 1].0));
                law_path_order(path, path, path);
            }
        }
    }
}

/// A sorted list stays sorted when a record goes in at its place, and the map
/// gains that record.
proof fn lemma_insert_at(pairs: Seq<(Seq<char>, FileLine)>, i: int, path: Seq<char>, line: FileLine)
    requires
        sorted(pairs),
        0 <= i <= pairs.len(),
        forall|j: int| 0 <= j < i ==> path_less((#[trigger] pairs[j]).0, path),
        forall|j: int| i <= j < pairs.len() ==> path_less(path, (#[trigger] pairs[j]).0),
    ensures
        sorted(pairs.insert(i, (path, line))),
        map_of(pairs.insert(i, (path, line))) == map_of(pairs).insert(path, line),
{
    let after = pairs.insert(i, (path, line));
    assert forall|a: int, b: int| 0 <= a < b < after.len() implies path_less(
        after[a].0,
        after[b].0,
    ) by {
        let a0 = if a > i {
            a - 1
        } else {
            a
        };
        let b0 = if b > i {
            b - 1
        } else {
            b
        };
        if a != i {
            assert(after[a] == pairs[a0]);
        }
        if b != i {
            assert(after[b] == pairs[b0]);
        }
    }
    lemma_map_of_entry(after, i);
    assert forall|key: Seq<char>| #[trigger]
        map_of(after).contains_key(key) <==> map_of(pairs).insert(path, line).contains_key(key) by {
        if has_path(after, key) {
            let a = choose|a: int| 0 <= a < after.len() && (#[trigger] after[a]).0 == key;
            if a < i {
                assert(pairs[a] == after[a]);
            } else if a > i {
                assert(pairs[a - 1] == after[a]);
            }
        }
        if has_path(pairs, key) {
            let b = choose|b: int| 0 <= b < pairs.len() && (#[trigger] pairs[b]).0 == key;
            if b < i {
                assert(after[b] == pairs[b]);
            } else {
                assert(after[b + 1] == pairs[b]);
            }
        }
        assert(after[i].0 == path);
    }
    assert forall|key: Seq<char>| #[trigger] map_of(after).contains_key(key) implies map_of(
        after,
    )[key] == map_of(pairs).insert(path, line)[key] by {
        let a = choose|a: int| 0 <= a < after.len() && (#[trigger] after[a]).0 == key;
        lemma_map_of_entry(after, a);
        if a < i {
            assert(pairs[a] == after[a]);
            lemma_map_of_entry(pairs, a);
            law_path_order(path, path, path);
        } else if a > i {
            assert(pairs[a - 1] == after[a]);
            lemma_map_of_entry(pairs, a - 1);
            law_path_order(path, path, path);
        }
    }
    assert(map_of(after) =~= map_of(pairs).insert(path, line));
}

/// A sorted list stays sorted when a record leaves it, and the map loses that
/// record.
proof fn lemma_remove_at(pairs: Seq<(Seq<char>, FileLine)>, i: int)
    requires
        sorted(pairs),
        0 <= i < pairs.len(),
    ensures
        sorted(pairs.remove(i)),
        map_of(pairs.remove(i)) == map_of(pairs).remove(pairs[i].0),
{
    let after = pairs.remove(i);
    let path = pairs[i].0;
    assert forall|a: int, b: int| 0 <= a < b < after.len() implies path_less(
        after[a].0,
        after[b].0,
    ) by {
        let a0 = if a >= i {
            a + 1
        } else {
            a
        };
        let b0 = if b >= i {
            b + 1
        } else {
            b
        };
        assert(after[a] == pairs[a0]);
        assert(after[b] == pairs[b0]);
    }
    assert forall|key: Seq<char>| #[trigger]
        map_of(after).contains_key(key) <==> map_of(pairs).remove(path).contains_key(key) by {
        law_path_order(path, path, path);
        if has_path(after, key) {
            let a = choose|a: int| 0 <= a < after.len() && (#[trigger] after[a]).0 == key;
            if a < i {
                assert(pairs[a] == after[a]);
                assert(path_less(pairs[a].0, pairs[i].0));
            } else {
                assert(pairs[a + 1] == after[a]);
                assert(path_less(pairs[i].0, pairs[a + 1].0));
            }
        }
        if has_path(pairs, key) && key != path {
            let b = choose|b: int| 0 <= b < pairs.len() && (#[trigger] pairs[b]).0 == key;
            if b < i {
                assert(after[b] == pairs[b]);
            } else {
                assert(after[b - 1] == pairs[b]);
            }
        }
    }
    assert forall|key: Seq<char>| #[trigger] map_of(after).contains_key(key) implies map_of(
        after,
    )[key] == map_of(pairs).remove(path)[key] by {
        let a = choose|a: int| 0 <= a < after.len() && (#[trigger] after[a]).0 == key;
        lemma_map_of_entry(after, a);
        if a < i {
            assert(pairs[a] == after[a]);
            lemma_map_of_entry(pairs, a);
        } else {
            assert(pairs[a + 1] == after[a]);
            lemma_map_of_entry(pairs, a + 1);
        }
    }
    assert(map_of(after) =~= map_of(pairs).remove(path));
}

/// Where one path stands relative to another.
enum Place {
    Before,
    Same,
    After,
}

/// Finds out where `a` stands relative to `b`.
fn place(a: &str, b: &str) -> (r: Place)
    ensures
        r is Before ==> path_less(a@, b@),
        r is Same ==> a@ == b@,
        r is After ==> path_less(b@, a@),
{
    let x = a.as_bytes();
    let y = b.as_bytes();
    let mut k: usize = 0;
    while k < x.len() && k < y.len() && x[k] == y[k]
        invariant
            k <= x.len(),
            k <= y.len(),
            x@ == encode_utf8(a@),
            y@ == encode_utf8(b@),
            forall|j: int| 0 <= j < k ==> x@[j] == y@[j],
        decreases x.len() - k,
    {
        k += 1;
    }
    if k == x.len() && k == y.len() {
        proof {
            assert(x@ =~= y@);
            vstd::utf8::encode_utf8_decode_utf8(a@);
            vstd::utf8::encode_utf8_decode_utf8(b@);
        }
        Place::Same
    } else if k == x.len() || (k < y.len() && x[k] < y[k]) {
        assert(less_at(x@, y@, k as int));
        Place::Before
    } else {
        assert(less_at(y@, x@, k as int));
        Place::After
    }
}

/// A map from path to file record that keeps its records in the order of their
/// paths.
#[derive(Debug)]
pub struct FileMap {
    entries: Vec<(String, FileLine)>,
}

/// Path and record of one entry.
pub open spec fn pair_of(entry: (String, FileLine)) -> (Seq<char>, FileLine) {
    (entry.0@, entry.1)
}

impl View for FileMap {
    type V = Map<Seq<char>, FileLine>;

    open spec fn view(&self) -> Map<Seq<char>, FileLine> {
        map_of(self.pairs())
    }
}

impl FileMap {
    /// The records in the order in which the map keeps them.
    pub closed spec fn pairs(&self) -> Seq<(Seq<char>, FileLine)> {
        self.entries@.map_values(|e: (String, FileLine)| pair_of(e))
    }

    #[verifier::type_invariant]
    spec fn in_order(self) -> bool {
        sorted(self.pairs())
    }

    /// A map without records.
    pub fn new() -> (r: FileMap)
        ensures
            r@ == Map::<Seq<char>, FileLine>::empty(),
            r.pairs().len() == 0,
    {
        let r = FileMap { entries: Vec::new() };
        assert(r@ =~= Map::<Seq<char>, FileLine>::empty());
        r
    }

    /// How many records there are.
    pub fn len(&self) -> (r: usize)
        ensures
            r == self.pairs().len(),
            self@.dom().finite(),
            r == self@.len(),
            forall|path: Seq<char>| #[trigger]
                self@.contains_key(path) ==> exists|i: int|
                    0 <= i < r && (#[trigger] self.pairs()[i]).0 == path,
    {
        proof {
            use_type_invariant(self);
            lemma_map_of_len(self.pairs());
        }
        self.entries.len()
    }

    /// The record at a position in the order of paths. The records come in
    /// strictly increasing order, so every path occurs once.
    pub fn entry(&self, i: usize) -> (r: (&str, FileLine))
        requires
            i < self.pairs().len(),
        ensures
            (r.0@, r.1) == self.pairs()[i as int],
            self@.contains_key(r.0@),
            self@[r.0@] == r.1,
            forall|j: int, k: int|
                0 <= j < k < self.pairs().len() ==> path_less(
                    (#[trigger] self.pairs()[j]).0,
                    (#[trigger] self.pairs()[k]).0,
                ),
            sorted(self.pairs()),
    {
        proof {
            use_type_invariant(self);
            lemma_map_of_entry(self.pairs(), i as int);
        }
        let e = &self.entries[i];
        (e.0.as_str(), e.1)
    }

    /// Finds the position of a path, or else the position where it belongs.
    fn position(entries: &Vec<(String, FileLine)>, path: &str) -> (r: (usize, bool))
        requires
            sorted(entries@.map_values(|e: (String, FileLine)| pair_of(e))),
        ensures
            r.0 <= entries.len(),
            forall|j: int| 0 <= j < r.0 ==> path_less((#[trigger] entries@[j]).0@, path@),
            r.1 ==> r.0 < entries.len() && entries@[r.0 as int].0@ == path@,
            !r.1 ==> forall|j: int|
                r.0 <= j < entries.len() ==> path_less(path@, (#[trigger] entries@[j]).0@),
    {
        let ghost pairs = entries@.map_values(|e: (String, FileLine)| pair_of(e));
        let mut low: usize = 0;
        let mut high: usize = entries.len();
        while low < high
            invariant
                low <= high <= entries.len(),
                pairs == entries@.map_values(|e: (String, FileLine)| pair_of(e)),
                sorted(pairs),
                forall|j: int| 0 <= j < low ==> path_less((#[trigger] entries@[j]).0@, path@),
                forall|j: int|
                    high <= j < entries.len() ==> path_less(path@, (#[trigger] entries@[j]).0@),
            decreases high - low,
        {
            let mid: usize = low + (high - low) / 2;
            let at = place(entries[mid].0.as_str(), path);
            match at {
                Place::Same => {
                    assert forall|j: int| 0 <= j < mid implies path_less(
                        (#[trigger] entries@[j]).0@,
                        path@,
                    ) by {
                        assert(path_less(pairs[j].0, pairs[mid as int].0));
                    }
                    return (mid, true);
                },
                Place::Before => {
                    assert forall|j: int| 0 <= j < mid + 1 implies path_less(
                        (#[trigger] entries@[j]).0@,
                        path@,
                    ) by {
                        if j < mid {
                            assert(path_less(pairs[j].0, pairs[mid as int].0));
                            law_path_order(entries@[j].0@, entries@[mid as int].0@, path@);
                        }
                    }
                    low = mid + 1;
                },
                Place::After => {
                    assert forall|j: int| mid <= j < entries.len() implies path_less(
                        path@,
                        (#[trigger] entries@[j]).0@,
                    ) by {
                        if mid < j {
                            assert(path_less(pairs[mid as int].0, pairs[j].0));
                            law_path_order(path@, entries@[mid as int].0@, entries@[j].0@);
                        }
                    }
                    high = mid;
                },
            }
        }
        (low, false)
    }

    /// Puts a record under a path, in place of one that was there.
    pub fn insert(&mut self, path: String, line: FileLine)
        ensures
            final(self)@ == old(self)@.insert(path@, line),
    {
        let mut entries: Vec<(String, FileLine)> = Vec::new();
        proof {
            use_type_invariant(&*self);
        }
        let ghost before = self.pairs();
        std::mem::swap(&mut entries, &mut self.entries);
        let ghost key = path@;
        let (i, found) = FileMap::position(&entries, path.as_str());
        assert forall|j: int| 0 <= j < i implies path_less((#[trigger] before[j]).0, key) by {
            assert(before[j].0 == entries@[j].0@);
        }
        if found {
            entries.remove(i);
            proof {
                lemma_remove_at(before, i as int);
                assert forall|j: int| i < j < before.len() implies path_less(
                    key,
                    (#[trigger] before[j]).0,
                ) by {
                    assert(path_less(before[i as int].0, before[j].0));
                }
            }
        } else {
            assert forall|j: int| i <= j < before.len() implies path_less(
                key,
                (#[trigger] before[j]).0,
            ) by {
                assert(before[j].0 == entries@[j].0@);
            }
        }
        let ghost rest = entries@.map_values(|e: (String, FileLine)| pair_of(e));
        assert(rest =~= if found {
            before.remove(i as int)
        } else {
            before
        });
        proof {
            lemma_insert_at(rest, i as int, key, line);
        }
        entries.insert(i, (path, line));
        assert(entries@.map_values(|e: (String, FileLine)| pair_of(e)) =~= rest.insert(
            i as int,
            (key, line),
        ));
        self.entries = entries;
        assert(self@ =~= map_of(before).insert(key, line));
    }

    /// Takes out the record under a path, if there is one.
    pub fn remove(&mut self, path: &str) -> (r: Option<FileLine>)
        ensures
            final(self)@ == old(self)@.remove(path@),
            r == (if old(self)@.contains_key(path@) {
                Some(old(self)@[path@])
            } else {
                None
            }),
    {
        let mut entries: Vec<(String, FileLine)> = Vec::new();
        proof {
            use_type_invariant(&*self);
        }
        let ghost before = self.pairs();
        std::mem::swap(&mut entries, &mut self.entries);
        let (i, found) = FileMap::position(&entries, path);
        if found {
            assert(before[i as int].0 == path@);
            proof {
                lemma_remove_at(before, i as int);
                lemma_map_of_entry(before, i as int);
            }
            let e = entries.remove(i);
            assert(entries@.map_values(|e: (String, FileLine)| pair_of(e)) =~= before.remove(
                i as int,
            ));
            self.entries = entries;
            Some(e.1)
        } else {
            assert(entries@.map_values(|e: (String, FileLine)| pair_of(e)) =~= before);
            assert(!has_path(before, path@)) by {
                if has_path(before, path@) {
                    let j = choose|j: int|
                        0 <= j < before.len() && (#[trigger] before[j]).0 == path@;
                    assert(before[j].0 == entries@[j].0@);
                    law_path_order(path@, path@, path@);
                }
            }
            self.entries = entries;
            assert(self@ =~= map_of(before).remove(path@));
            None
        }
    }

    /// Moves all records of another map into this one. Where both have a path,
    /// the other map's record stays.
    pub fn append(&mut self, other: FileMap)
        ensures
            final(self)@ == old(self)@.union_prefer_right(other@),
    {
        let ghost before = self@;
        let ghost pairs = other.pairs();
        proof {
            use_type_invariant(&other);
        }
        let mut i: usize = 0;
        let entries = other.entries;
        assert(map_of(pairs.take(0)) =~= Map::<Seq<char>, FileLine>::empty());
        assert(self@ =~= before.union_prefer_right(map_of(pairs.take(0))));
        while i < entries.len()
            invariant
                i <= entries.len(),
                pairs == entries@.map_values(|e: (String, FileLine)| pair_of(e)),
                sorted(pairs),
                self@ == before.union_prefer_right(map_of(pairs.take(i as int))),
            decreases entries.len() - i,
        {
            let path: String = entries[i].0.clone();
            let line: FileLine = entries[i].1;
            self.insert(path, line);
            proof {
                let seen = pairs.take(i as int);
                assert forall|j: int| 0 <= j < seen.len() implies path_less(
                    (#[trigger] seen[j]).0,
                    path@,
                ) by {
                    assert(path_less(pairs[j].0, pairs[i as int].0));
                }
                lemma_insert_at(seen, i as int, path@, line);
                assert(pairs.take(i + 1) =~= seen.insert(i as int, (path@, line)));
                assert(self@ =~= before.union_prefer_right(map_of(pairs.take(i + 1))));
            }
            i += 1;
        }
        assert(pairs.take(entries.len() as int) =~= pairs);
    }
}

} // verus!

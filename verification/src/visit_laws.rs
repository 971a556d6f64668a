//! What happens to a file, step by step: which files are taken, hashed, looked up
//! in the cache, queued and remembered.

use std::path::PathBuf;
use vstd::prelude::*;

use crate::cache::{
    adopted, check_views, flushed, flushed_checks, forgotten, hashed, include_patterns, probed,
    visited, CacheEntry, CacheState, PendingCompression, PendingView, Probe, QuickCheck,
    QuickCheckView, Stats, StepView, Visit, VisitStep, Visitor,
};
use crate::digest::{line_text, md5, sd0_path, text_crc, FileLine, FileMeta, FileMetaPair};
use crate::globs::set_matches;
use crate::text::lower;

verus! {

/// A file is ignored just where no pattern takes its path in, a pattern leaves it
/// out, or it is a pack and packs are not asked for. Then one more file counts as
/// ignored, and all else stays.
pub proof fn law_which_files_are_ignored(s: CacheState, path: Seq<char>, mtime: Option<u64>)
    requires
        s.stats.room(),
    ensures
        visited(s, path, mtime).1 is Ignored <==> !set_matches(s.include_glob, path)
            || set_matches(s.exclude_glob, path) || (!s.include_pk && ".pk"@.is_suffix_of(
            lower(path),
        )),
        visited(s, path, mtime).1 is Ignored ==> {
            let t = visited(s, path, mtime).0;
            &&& t.stats.ignored == s.stats.ignored + 1
            &&& t.stats.total == s.stats.total
            &&& t.stats.quickcheck == s.stats.quickcheck
            &&& t.stats.unchanged == s.stats.unchanged
            &&& t.stats.cached_sd0 == s.stats.cached_sd0
            &&& t.stats.compress == s.stats.compress
            &&& t.quickcheck == s.quickcheck
            &&& t.prev == s.prev
            &&& t.files == s.files
            &&& t.pending == s.pending
        },
{
}

/// A file that is not ignored is hashed, unless its time of modification is known
/// and equal to the remembered one. Hashing is asked for under the file's own path
/// and time. The file counts as looked at and is no longer remembered; the
/// manifests and the queue are as before.
pub proof fn law_modified_is_hashed(s: CacheState, path: Seq<char>, mtime: Option<u64>)
    requires
        s.stats.room(),
        visited(s, path, mtime).1 !is Ignored,
    ensures
        visited(s, path, mtime).1 is HashInput <==> mtime is None || !s.quickcheck.contains_key(
            text_crc(path),
        ) || s.quickcheck[text_crc(path)].mtime != mtime,
        visited(s, path, mtime).1 is HashInput ==> {
            let t = visited(s, path, mtime).0;
            &&& visited(s, path, mtime).1 == (StepView::HashInput { path, mtime })
            &&& t.stats == (Stats { total: t.stats.total, ..s.stats })
            &&& t.quickcheck == s.quickcheck.remove(text_crc(path))
            &&& t.prev == s.prev
            &&& t.files == s.files
            &&& t.pending == s.pending
        },
        visited(s, path, mtime).0.stats.total == s.stats.total + 1,
        visited(s, path, mtime).0.stats.ignored == s.stats.ignored,
        visited(s, path, mtime).0.stats.cached_sd0 == s.stats.cached_sd0,
        visited(s, path, mtime).0.stats.compress == s.stats.compress,
        visited(s, path, mtime).0.quickcheck == s.quickcheck.remove(text_crc(path)),
{
}

/// Where hashing is left out, the visit goes on just as if hashing had given the
/// remembered size and checksum, but for the count of such files.
pub proof fn law_remembered_stands_for_hashed(s: CacheState, path: Seq<char>, mtime: Option<u64>)
    requires
        s.stats.room(),
        visited(s, path, mtime).1 !is Ignored,
        visited(s, path, mtime).1 !is HashInput,
    ensures
        ({
            let known = s.quickcheck[text_crc(path)].meta;
            let forgetful = CacheState { quickcheck: s.quickcheck.remove(text_crc(path)), ..s };
            let (t, step) = visited(s, path, mtime);
            let first = visited(forgetful, path, mtime);
            let (u, other) = hashed(first.0, path, mtime, Some(known));
            &&& first.1 is HashInput
            &&& step == other
            &&& t.files == u.files
            &&& t.prev == u.prev
            &&& t.pending == u.pending
            &&& t.quickcheck == u.quickcheck
            &&& t.stats.quickcheck == u.stats.quickcheck + 1
            &&& t.stats.total == u.stats.total
            &&& t.stats.unchanged == u.stats.unchanged
        }),
{
    let known = s.quickcheck[text_crc(path)].meta;
    let forgetful = CacheState { quickcheck: s.quickcheck.remove(text_crc(path)), ..s };
    let first = visited(forgetful, path, mtime);
    assert(forgetful.quickcheck.remove(text_crc(path)) =~= s.quickcheck.remove(text_crc(path)));
    assert(visited(s, path, mtime).0.files =~= hashed(first.0, path, mtime, Some(known)).0.files);
}

/// Once a file is hashed, it is recorded just where the previous manifest has its
/// path with the same size and checksum, and then with the line of the previous
/// manifest. Otherwise the cache is looked into at the path of the checksum, and
/// neither the new manifest nor the queue changes. Either way the path leaves the
/// previous manifest, and no other does.
pub proof fn law_hashed_file(
    s: CacheState,
    path: Seq<char>,
    mtime: Option<u64>,
    meta: FileMeta,
)
    requires
        s.stats.unchanged < usize::MAX,
    ensures
        ({
            let (t, step) = hashed(s, path, mtime, Some(meta));
            let same = s.prev.contains_key(path) && s.prev[path].pair.raw.size == meta.size
                && s.prev[path].pair.raw.hash@ == meta.hash@;
            &&& t.prev == s.prev.remove(path)
            &&& t.quickcheck == s.quickcheck
            &&& t.pending == s.pending
            &&& same ==> step == StepView::Recorded(QuickCheckView { path, mtime, meta })
            &&& same ==> t.files == s.files.insert(path, s.prev[path])
            &&& same ==> t.stats.unchanged == s.stats.unchanged + 1
            &&& !same ==> step == (StepView::ProbeCache {
                path,
                mtime,
                meta,
                outpath: sd0_path(meta.hash@, s.separator),
            })
            &&& !same ==> t.files == s.files
            &&& !same ==> t.stats == s.stats
            &&& t.stats == (Stats { unchanged: t.stats.unchanged, ..s.stats })
        }),
{
    if s.prev.contains_key(path) {
        let raw = s.prev[path].pair.raw;
        if raw.hash@ == meta.hash@ {
            assert(raw.hash@ =~= meta.hash@);
            assert(raw.hash == meta.hash);
        }
    }
}

/// A file that cannot be hashed is given up, and nothing changes.
pub proof fn law_unreadable_file(s: CacheState, path: Seq<char>, mtime: Option<u64>)
    ensures
        hashed(s, path, mtime, None) == (s, StepView::Abandoned),
{
}

/// A compressed file that is in the cache is used again: the manifest gets a line
/// with the size and checksum of both forms of the file and its own checksum, and
/// the file is to be remembered under its own path, time, size and checksum.
pub proof fn law_cached_file_is_used(
    s: CacheState,
    path: Seq<char>,
    mtime: Option<u64>,
    meta: FileMeta,
    outpath: Seq<char>,
    input: PathBuf,
    compressed: FileMeta,
)
    requires
        s.stats.cached_sd0 < usize::MAX,
    ensures
        ({
            let (t, step) = probed(
                s,
                path,
                mtime,
                meta,
                outpath,
                input,
                CacheEntry::Found(compressed),
            );
            let pair = FileMetaPair { raw: meta, compressed };
            &&& step == StepView::Recorded(QuickCheckView { path, mtime, meta })
            &&& t.files == s.files.insert(
                path,
                FileLine { pair, linesum: md5(line_text(path, pair)) },
            )
            &&& t.stats.cached_sd0 == s.stats.cached_sd0 + 1
            &&& t.stats == (Stats { cached_sd0: t.stats.cached_sd0, ..s.stats })
            &&& t.prev == s.prev
            &&& t.quickcheck == s.quickcheck
            &&& t.pending == s.pending
        }),
{
}

/// A file without a compressed form in the cache goes to the end of the queue, with
/// its path, location, size, checksum and time, to be compressed to the very path
/// that was looked at. Nothing else changes.
pub proof fn law_missing_file_is_queued(
    s: CacheState,
    path: Seq<char>,
    mtime: Option<u64>,
    meta: FileMeta,
    outpath: Seq<char>,
    input: PathBuf,
)
    ensures
        ({
            let (t, step) = probed(s, path, mtime, meta, outpath, input, CacheEntry::Missing);
            &&& step is Queued
            &&& t.pending.len() == s.pending.len() + 1
            &&& t.pending.drop_last() == s.pending
            &&& t.pending.last().path == path
            &&& t.pending.last().input == input
            &&& t.pending.last().outpath == outpath
            &&& t.pending.last().raw_meta == meta
            &&& t.pending.last().mtime == mtime
            &&& t.files == s.files
            &&& t.prev == s.prev
            &&& t.quickcheck == s.quickcheck
            &&& t.stats == s.stats
        }),
{
    let t = probed(s, path, mtime, meta, outpath, input, CacheEntry::Missing).0;
    assert(t.pending.drop_last() =~= s.pending);
}

/// A file whose place in the cache cannot be read is given up, and nothing changes.
pub proof fn law_unreadable_cache(
    s: CacheState,
    path: Seq<char>,
    mtime: Option<u64>,
    meta: FileMeta,
    outpath: Seq<char>,
    input: PathBuf,
)
    ensures
        probed(s, path, mtime, meta, outpath, input, CacheEntry::Failed) == (
            s,
            StepView::Abandoned,
        ),
{
}

/// No step of a scan changes the patterns, whether packs are taken, or the
/// separator.
pub proof fn law_settings_stay(
    s: CacheState,
    path: Seq<char>,
    mtime: Option<u64>,
    meta: FileMeta,
    outpath: Seq<char>,
    input: PathBuf,
    entry: CacheEntry,
    pairs: Seq<Option<FileMetaPair>>,
)
    ensures
        forall|t: CacheState|
            t == visited(s, path, mtime).0 || t == hashed(s, path, mtime, Some(meta)).0 || t
                == probed(s, path, mtime, meta, outpath, input, entry).0 || t == forgotten(s, path)
                || t == flushed(s, pairs) || t == adopted(s) ==> {
                &&& (#[trigger] t.include_glob) == s.include_glob
                &&& t.exclude_glob == s.exclude_glob
                &&& t.include_pk == s.include_pk
                &&& t.separator == s.separator
            },
{
}

/// A listed file that does not exist is neither remembered nor in the previous
/// manifest any more; all else stays.
pub proof fn law_missing_file_is_forgotten(s: CacheState, path: Seq<char>)
    ensures
        forgotten(s, path).quickcheck == s.quickcheck.remove(text_crc(path)),
        forgotten(s, path).prev == s.prev.remove(path),
        forgotten(s, path).files == s.files,
        forgotten(s, path).pending == s.pending,
        forgotten(s, path).stats == s.stats,
{
}

/// The end of a scan of listed files takes each entry of the previous manifest that
/// is left over as it is, keeps the other entries of the new manifest, and leaves
/// counts and queue alone.
pub proof fn law_rest_is_taken_over(s: CacheState, path: Seq<char>)
    ensures
        s.prev.contains_key(path) ==> adopted(s).files.contains_key(path)
            && adopted(s).files[path] == s.prev[path],
        !s.prev.contains_key(path) ==> adopted(s).files.contains_key(path)
            == s.files.contains_key(path),
        !s.prev.contains_key(path) && s.files.contains_key(path) ==> adopted(s).files[path]
            == s.files[path],
        !adopted(s).prev.contains_key(path),
        adopted(s).quickcheck == Map::<u32, QuickCheck>::empty(),
        adopted(s).pending == s.pending,
        adopted(s).stats == s.stats,
{
}

/// Each queued file that was compressed is remembered under its own path, time,
/// size and checksum. The records come in the order of the queue, one for each
/// such file and no other: the record of a file has as many before it as files
/// before it in the queue were compressed.
pub proof fn law_flush_remembers_each_file(
    s: CacheState,
    pairs: Seq<Option<FileMetaPair>>,
    i: int,
)
    requires
        pairs.len() <= s.pending.len(),
        0 <= i < pairs.len(),
        pairs[i] is Some,
    ensures
        ({
            let done = |p: Option<FileMetaPair>| p is Some;
            let checks = flushed_checks(s.pending, pairs);
            let k = pairs.take(i).filter(done).len();
            &&& checks.len() == pairs.filter(done).len()
            &&& k < checks.len()
            &&& checks[k as int].path == s.pending[i].path
            &&& checks[k as int].mtime == s.pending[i].mtime
            &&& checks[k as int].meta == s.pending[i].raw_meta
        }),
    decreases pairs.len(),
{
    let done = |p: Option<FileMetaPair>| p is Some;
    let front = pairs.drop_last();
    lemma_checks_count(s.pending, pairs);
    lemma_checks_count(s.pending, front);
    if i < front.len() {
        assert(front[i] == pairs[i]);
        assert(front.take(i) =~= pairs.take(i));
        law_flush_remembers_each_file(s, front, i);
    } else {
        assert(pairs.take(i) =~= front);
    }
}

/// There is a record for each file that was compressed.
proof fn lemma_checks_count(pending: Seq<PendingView>, pairs: Seq<Option<FileMetaPair>>)
    ensures
        flushed_checks(pending, pairs).len() == pairs.filter(
            |p: Option<FileMetaPair>| p is Some,
        ).len(),
        flushed_checks(pending, pairs).len() <= pairs.len(),
    decreases pairs.len(),
{
    reveal(Seq::filter);
    if pairs.len() > 0 {
        lemma_checks_count(pending, pairs.drop_last());
    }
}

/// Flushing empties the queue, counts the files that were compressed, and leaves
/// the previous manifest and what is remembered alone. Where all compression
/// failed, the new manifest stays as it is.
pub proof fn law_flush_counts(s: CacheState, pairs: Seq<Option<FileMetaPair>>)
    requires
        s.stats.compress + pairs.len() <= usize::MAX,
    ensures
        ({
            let t = flushed(s, pairs);
            let done = |p: Option<FileMetaPair>| p is Some;
            &&& t.pending.len() == 0
            &&& t.stats.compress == s.stats.compress + pairs.filter(done).len()
            &&& t.stats == (Stats { compress: t.stats.compress, ..s.stats })
            &&& t.prev == s.prev
            &&& t.quickcheck == s.quickcheck
        }),
{
    lemma_checks_count(s.pending, pairs);
}

/// Where no patterns are given everything is taken in, and otherwise what the
/// given patterns match.
pub proof fn law_include_patterns(patterns: Seq<Seq<char>>)
    ensures
        patterns.len() == 0 ==> include_patterns(patterns).len() == 1 && include_patterns(
            patterns,
        )[0] == "**"@,
        patterns.len() > 0 ==> include_patterns(patterns) == patterns,
{
}

/// A visitor's state has all that the visitor has, and so have the other values
/// that a scan hands out.
pub proof fn law_views(
    v: Visitor,
    check: QuickCheck,
    waiting: PendingCompression,
    visit: Visit,
    probe: Probe,
    checks: Seq<QuickCheck>,
)
    ensures
        v@.stats == v.stats && v@.include_glob == v.include_glob && v@.exclude_glob
            == v.exclude_glob && v@.quickcheck == v.quickcheck@ && v@.prev == v.prev@ && v@.files
            == v.files@ && v@.include_pk == v.include_pk && v@.separator == v.separator,
        v@.pending.len() == v.pending.len(),
        forall|i: int| 0 <= i < v.pending.len() ==> #[trigger] v@.pending[i] == v.pending[i]@,
        check@.path == check.path@ && check@.mtime == check.mtime && check@.meta == check.meta,
        waiting@.path == waiting.path@ && waiting@.input == waiting.input && waiting@.outpath
            == waiting.outpath@ && waiting@.raw_meta == waiting.raw_meta && waiting@.mtime
            == waiting.mtime,
        VisitStep::HashInput(visit)@ == (StepView::HashInput {
            path: visit.path@,
            mtime: visit.mtime,
        }),
        VisitStep::ProbeCache(probe)@ == (StepView::ProbeCache {
            path: probe.path@,
            mtime: probe.mtime,
            meta: probe.meta,
            outpath: probe.outpath@,
        }),
        VisitStep::Recorded(check)@ == StepView::Recorded(check@),
        VisitStep::Ignored@ is Ignored,
        VisitStep::Queued@ is Queued,
        VisitStep::Abandoned@ is Abandoned,
        check_views(checks).len() == checks.len(),
        forall|i: int| 0 <= i < checks.len() ==> #[trigger] check_views(checks)[i] == checks[i]@,
{
}

} // verus!

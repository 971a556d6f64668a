//! What the counts of a scan come to, over any number of visits.

use std::path::PathBuf;
use vstd::prelude::*;

use crate::cache::{
    adopted, flushed, flushed_files, forgotten, hashed, new_line, probed, successes, visited,
    CacheEntry, CacheState, PendingView, Stats, StepView,
};
use crate::cache_laws::{
    law_flush_is_local, law_sums_right_after_flush, manifests_apart, state_sums_right,
};
use crate::digest::{sd0_path, text_crc, FileLine, FileMeta, FileMetaPair};

verus! {

/// One thing that happens during a scan.
pub enum Event {
    /// A file is visited. Its metadata are what hashing it gives and the entry is
    /// what a look into the cache finds, where those are asked for.
    Visit {
        path: Seq<char>,
        mtime: Option<u64>,
        meta: Option<FileMeta>,
        input: PathBuf,
        entry: CacheEntry,
    },
    /// A listed file does not exist.
    Forget { path: Seq<char> },
    /// The results of compressing the queued files come in.
    Flush { pairs: Seq<Option<FileMetaPair>> },
    /// The untouched part of the previous manifest goes into the new one.
    Adopt,
}

/// The state after a visit with all of its steps.
pub open spec fn visit_done(
    s: CacheState,
    path: Seq<char>,
    mtime: Option<u64>,
    meta: Option<FileMeta>,
    input: PathBuf,
    entry: CacheEntry,
) -> CacheState {
    let (t, first) = visited(s, path, mtime);
    let (u, second) = match first {
        StepView::HashInput { path, mtime } => hashed(t, path, mtime, meta),
        _ => (t, first),
    };
    match second {
        StepView::ProbeCache { path, mtime, meta, outpath } => probed(
            u,
            path,
            mtime,
            meta,
            outpath,
            input,
            entry,
        ).0,
        _ => u,
    }
}

/// The state after an event.
pub open spec fn after(s: CacheState, event: Event) -> CacheState {
    match event {
        Event::Visit { path, mtime, meta, input, entry } => visit_done(
            s,
            path,
            mtime,
            meta,
            input,
            entry,
        ),
        Event::Forget { path } => forgotten(s, path),
        Event::Flush { pairs } => flushed(s, pairs),
        Event::Adopt => adopted(s),
    }
}

/// The state after events, one after the other.
pub open spec fn after_all(s: CacheState, events: Seq<Event>) -> CacheState
    decreases events.len(),
{
    if events.len() == 0 {
        s
    } else {
        after(after_all(s, events.drop_last()), events.last())
    }
}

/// Whether an event can happen: compression has a result for each queued file.
pub open spec fn possible(s: CacheState, event: Event) -> bool {
    event matches Event::Flush { pairs } ==> pairs.len() == s.pending.len()
}

/// Whether events can happen one after the other.
pub open spec fn all_possible(s: CacheState, events: Seq<Event>) -> bool
    decreases events.len(),
{
    events.len() > 0 ==> all_possible(s, events.drop_last()) && possible(
        after_all(s, events.drop_last()),
        events.last(),
    )
}

/// How many of the events are visits.
pub open spec fn visits(events: Seq<Event>) -> nat
    decreases events.len(),
{
    if events.len() == 0 {
        0
    } else {
        visits(events.drop_last()) + if events.last() is Visit {
            1nat
        } else {
            0nat
        }
    }
}

/// How many entries of the previous manifest were taken over as they were.
pub open spec fn taken_over(s: CacheState, events: Seq<Event>) -> nat
    decreases events.len(),
{
    if events.len() == 0 {
        0
    } else {
        taken_over(s, events.drop_last()) + if events.last() is Adopt {
            after_all(s, events.drop_last()).prev.len()
        } else {
            0nat
        }
    }
}

/// Whether a scan has not begun: nothing is counted, queued or in the new
/// manifest.
pub open spec fn at_start(s: CacheState) -> bool {
    &&& s.stats == (Stats {
        quickcheck: 0,
        cached_sd0: 0,
        unchanged: 0,
        compress: 0,
        total: 0,
        ignored: 0,
    })
    &&& s.files == Map::<Seq<char>, FileLine>::empty()
    &&& s.pending == Seq::<PendingView>::empty()
    &&& s.prev.dom().finite()
}

/// Whether the counts of a state fit together after a number of visits and with a
/// number of entries taken over. The files looked at and the ignored ones are
/// those that were visited. No more files were passed without hashing than were
/// looked at, nor more found unchanged, found in the cache, compressed and queued
/// together. The manifest has no more entries than files were found unchanged,
/// found in the cache and compressed, besides the entries taken over.
pub open spec fn counts_fit(s: CacheState, visits: nat, taken_over: nat) -> bool {
    &&& s.stats.total + s.stats.ignored == visits
    &&& s.stats.quickcheck <= s.stats.total
    &&& s.stats.unchanged + s.stats.cached_sd0 + s.stats.compress + s.pending.len()
        <= s.stats.total
    &&& s.files.dom().finite()
    &&& s.files.len() <= s.stats.unchanged + s.stats.cached_sd0 + s.stats.compress + taken_over
}

/// One more entry makes a manifest longer by one at most.
proof fn lemma_insert_len(files: Map<Seq<char>, FileLine>, path: Seq<char>, line: FileLine)
    requires
        files.dom().finite(),
    ensures
        files.insert(path, line).dom().finite(),
        files.insert(path, line).len() <= files.len() + 1,
{
    assert(files.insert(path, line).dom() =~= files.dom().insert(path));
}

/// Without an entry, a manifest is still finite.
proof fn lemma_remove_finite(files: Map<Seq<char>, FileLine>, path: Seq<char>)
    requires
        files.dom().finite(),
    ensures
        files.remove(path).dom().finite(),
{
    assert(files.remove(path).dom() =~= files.dom().remove(path));
}

/// Compression makes a manifest longer by the files that were compressed at most,
/// which are no more than there were.
proof fn lemma_flushed_len(
    files: Map<Seq<char>, FileLine>,
    pending: Seq<PendingView>,
    pairs: Seq<Option<FileMetaPair>>,
)
    requires
        files.dom().finite(),
    ensures
        flushed_files(files, pending, pairs).dom().finite(),
        flushed_files(files, pending, pairs).len() <= files.len() + successes(pairs),
        successes(pairs) <= pairs.len(),
    decreases pairs.len(),
{
    reveal(Seq::filter);
    if pairs.len() > 0 {
        let before = flushed_files(files, pending, pairs.drop_last());
        lemma_flushed_len(files, pending, pairs.drop_last());
        if let Some(pair) = pairs.last() {
            let path = pending[pairs.len() - 1].path;
            lemma_insert_len(before, path, new_line(path, pair));
        }
    }
}

/// A visit keeps the counts fitting together.
proof fn lemma_visit_counts(
    s: CacheState,
    path: Seq<char>,
    mtime: Option<u64>,
    meta: Option<FileMeta>,
    input: PathBuf,
    entry: CacheEntry,
    n: nat,
    over: nat,
)
    requires
        counts_fit(s, n, over),
        s.prev.dom().finite(),
        n < usize::MAX,
    ensures
        counts_fit(visit_done(s, path, mtime, meta, input, entry), n + 1, over),
        visit_done(s, path, mtime, meta, input, entry).prev.dom().finite(),
{
    lemma_remove_finite(s.prev, path);
    if s.prev.contains_key(path) {
        lemma_insert_len(s.files, path, s.prev[path]);
    }
    if let CacheEntry::Found(compressed) = entry {
        if let Some(raw) = meta {
            let pair = FileMetaPair { raw, compressed };
            lemma_insert_len(s.files, path, new_line(path, pair));
        }
        let crc = text_crc(path);
        let pair = FileMetaPair { raw: s.quickcheck[crc].meta, compressed };
        lemma_insert_len(s.files, path, new_line(path, pair));
    }
}

/// After any run of a scan its counts fit together: every visit was counted once,
/// as a file looked at or as an ignored one, and the manifest and the queue hold no
/// more than was counted. Where nothing was taken over from the previous manifest,
/// the manifest has at most as many entries as files were found unchanged, found in
/// the cache and compressed.
pub proof fn law_counts_of_a_run(s: CacheState, events: Seq<Event>)
    requires
        at_start(s),
        all_possible(s, events),
        visits(events) <= usize::MAX,
    ensures
        counts_fit(after_all(s, events), visits(events), taken_over(s, events)),
        after_all(s, events).prev.dom().finite(),
        (forall|i: int| 0 <= i < events.len() ==> !(#[trigger] events[i] is Adopt)) ==> taken_over(
            s,
            events,
        ) == 0,
    decreases events.len(),
{
    if events.len() == 0 {
        assert(s.files.dom() =~= Set::<Seq<char>>::empty());
    } else {
        let front = events.drop_last();
        let t = after_all(s, front);
        let n = visits(front);
        let over = taken_over(s, front);
        law_counts_of_a_run(s, front);
        if forall|i: int| 0 <= i < events.len() ==> !(#[trigger] events[i] is Adopt) {
            assert forall|i: int| 0 <= i < front.len() implies !(#[trigger] front[i] is Adopt) by {
                assert(front[i] == events[i]);
            }
            assert(!(events[events.len() - 1] is Adopt));
        }
        match events.last() {
            Event::Visit { path, mtime, meta, input, entry } => {
                lemma_visit_counts(t, path, mtime, meta, input, entry, n, over);
            },
            Event::Forget { path } => {
                lemma_remove_finite(t.prev, path);
            },
            Event::Flush { pairs } => {
                lemma_flushed_len(t.files, t.pending, pairs);
            },
            Event::Adopt => {
                let both = t.files.union_prefer_right(t.prev);
                assert(both.dom() =~= t.files.dom().union(t.prev.dom()));
                vstd::set_lib::lemma_len_union(t.files.dom(), t.prev.dom());
                assert(adopted(t).prev.dom() =~= Set::<Seq<char>>::empty());
            },
        }
    }
}

/// Where the counts of a scan fit together and more visits fit into the counts,
/// there is room for one more.
pub proof fn law_counts_have_room(s: CacheState, visits: nat, taken_over: nat)
    requires
        counts_fit(s, visits, taken_over),
        visits < usize::MAX,
    ensures
        s.stats.room(),
        s.stats.compress + s.pending.len() <= usize::MAX,
{
}

/// After any run of a scan the checksum of each line in either manifest is that of
/// the line, if it was so at the beginning.
pub proof fn law_sums_right_after_a_run(s: CacheState, events: Seq<Event>)
    requires
        state_sums_right(s),
    ensures
        state_sums_right(after_all(s, events)),
    decreases events.len(),
{
    if events.len() > 0 {
        let t = after_all(s, events.drop_last());
        law_sums_right_after_a_run(s, events.drop_last());
        if let Event::Flush { pairs } = events.last() {
            law_sums_right_after_flush(t, pairs);
        }
    }
}

/// Whether no queued path is in the previous manifest.
spec fn queue_apart(s: CacheState) -> bool {
    forall|i: int| 0 <= i < s.pending.len() ==> !s.prev.contains_key((#[trigger] s.pending[i]).path)
}

/// As [`law_manifests_apart_after_a_run`], with what it takes.
proof fn lemma_apart_after_a_run(s: CacheState, events: Seq<Event>)
    requires
        at_start(s),
        all_possible(s, events),
    ensures
        manifests_apart(after_all(s, events)),
        queue_apart(after_all(s, events)),
    decreases events.len(),
{
    if events.len() > 0 {
        let t = after_all(s, events.drop_last());
        lemma_apart_after_a_run(s, events.drop_last());
        if let Event::Flush { pairs } = events.last() {
            assert forall|path: Seq<char>| #[trigger]
                flushed(t, pairs).files.contains_key(path) implies !t.prev.contains_key(path) by {
                if t.prev.contains_key(path) {
                    assert forall|j: int|
                        0 <= j < pairs.len() && (#[trigger] pairs[j]) is Some implies t.pending[j].path
                        != path by {}
                    law_flush_is_local(t, pairs, path);
                    assert(t.files.contains_key(path));
                }
            }
        }
    }
}

/// After any run of a scan no path is in both manifests, so that taking over the
/// rest of the previous one loses nothing.
pub proof fn law_manifests_apart_after_a_run(s: CacheState, events: Seq<Event>)
    requires
        at_start(s),
        all_possible(s, events),
    ensures
        manifests_apart(after_all(s, events)),
{
    lemma_apart_after_a_run(s, events);
}

/// Whether a queued file came from a visit that found nothing in the cache.
pub open spec fn came_from(p: PendingView, event: Event) -> bool {
    event matches Event::Visit { path, mtime, input, entry, .. } && p.path == path && p.mtime
        == mtime && p.input == input && entry is Missing
}

/// After any run of a scan each queued file is to be compressed to the path in the
/// cache that is made from its own checksum, and has the path, location and time of
/// a visit that found nothing in the cache.
pub proof fn law_queue_after_a_run(s: CacheState, events: Seq<Event>, i: int)
    requires
        at_start(s),
        0 <= i < after_all(s, events).pending.len(),
    ensures
        ({
            let p = after_all(s, events).pending[i];
            &&& p.outpath == sd0_path(p.raw_meta.hash@, s.separator)
            &&& exists|j: int| 0 <= j < events.len() && came_from(p, #[trigger] events[j])
        }),
    decreases events.len(),
{
    if events.len() > 0 {
        let front = events.drop_last();
        let t = after_all(s, front);
        let u = after_all(s, events);
        lemma_settings_after_a_run(s, front);
        if i < t.pending.len() {
            law_queue_after_a_run(s, front, i);
            assert(u.pending[i] == t.pending[i]);
            let j = choose|j: int| 0 <= j < front.len() && came_from(t.pending[i], #[trigger] front[j]);
            assert(events[j] == front[j]);
        } else {
            assert(came_from(u.pending[i], events[events.len() - 1]));
        }
    }
}

/// A run changes no setting.
proof fn lemma_settings_after_a_run(s: CacheState, events: Seq<Event>)
    ensures
        after_all(s, events).separator == s.separator,
    decreases events.len(),
{
    if events.len() > 0 {
        lemma_settings_after_a_run(s, events.drop_last());
    }
}

} // verus!

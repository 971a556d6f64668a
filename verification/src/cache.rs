//! Scanning a file tree into a cache of compressed files and a manifest.
//!
//! A [`Visitor`] decides what happens to each file. Reading, hashing and
//! compressing files is left to the caller: a visit goes in steps, each of which
//! says what the caller has to find out next.

use globset::GlobSet;
use std::collections::BTreeMap;
use std::path::PathBuf;
use vstd::prelude::*;

use crate::digest::{
    crc_of_text, file_line, line_text, md5, sd0_path, sd0_path_of, text_crc, FileLine, FileMeta,
    FileMetaPair,
};
use crate::file_map::FileMap;
use crate::globs::{
    built_from, everything, glob_set, matches_any, plain_pattern, set_matches, GlobError,
};
use crate::text::{
    ends_with, lower, replace_char, replaced, split, split_text, strip_prefix, texts, to_lower, trim, trimmed,
};

verus! {

/// The path of a file on this machine. It is carried along and never looked at.
#[verifier::external_type_specification]
#[verifier::external_body]
pub struct ExPathBuf(PathBuf);

/// What is remembered of a file from one scan to the next.
#[derive(Debug)]
pub struct QuickCheck {
    /// Path of the file in the manifest.
    pub path: String,
    /// When the file was last modified, as the bits of a number of seconds.
    pub mtime: Option<u64>,
    /// Size and checksum of the file at that time.
    pub meta: FileMeta,
}

/// The contents of a [`QuickCheck`].
pub struct QuickCheckView {
    pub path: Seq<char>,
    pub mtime: Option<u64>,
    pub meta: FileMeta,
}

impl View for QuickCheck {
    type V = QuickCheckView;

    open spec fn view(&self) -> QuickCheckView {
        QuickCheckView { path: self.path@, mtime: self.mtime, meta: self.meta }
    }
}

/// How many files went which way.
#[derive(Debug, Clone, Copy)]
pub struct Stats {
    /// Files that did not have to be hashed.
    pub quickcheck: usize,
    /// Files whose compressed form was in the cache.
    pub cached_sd0: usize,
    /// Files that are as the previous manifest says.
    pub unchanged: usize,
    /// Files that were compressed.
    pub compress: usize,
    /// Files that were looked at.
    pub total: usize,
    /// Files that are not taken.
    pub ignored: usize,
}

impl Default for Stats {
    fn default() -> (r: Stats)
        ensures
            r == (Stats {
                quickcheck: 0,
                cached_sd0: 0,
                unchanged: 0,
                compress: 0,
                total: 0,
                ignored: 0,
            }),
    {
        Stats { quickcheck: 0, cached_sd0: 0, unchanged: 0, compress: 0, total: 0, ignored: 0 }
    }
}

impl Stats {
    /// Whether every count that a visit may raise can still go up by one.
    pub open spec fn room(self) -> bool {
        &&& self.quickcheck < usize::MAX
        &&& self.cached_sd0 < usize::MAX
        &&& self.unchanged < usize::MAX
        &&& self.total < usize::MAX
        &&& self.ignored < usize::MAX
    }

    /// Tells whether every count that a visit may raise can still go up by one.
    pub fn has_room(&self) -> (r: bool)
        ensures
            r == self.room(),
    {
        self.quickcheck < usize::MAX && self.cached_sd0 < usize::MAX && self.unchanged < usize::MAX
            && self.total < usize::MAX && self.ignored < usize::MAX
    }
}

/// A file that waits for compression.
#[derive(Debug)]
pub struct PendingCompression {
    /// Path of the file in the manifest.
    pub path: String,
    /// Path of the file on this machine.
    pub input: PathBuf,
    /// Path of the compressed file, relative to the cache directory.
    pub outpath: String,
    /// Size and checksum of the file.
    pub raw_meta: FileMeta,
    /// When the file was last modified.
    pub mtime: Option<u64>,
}

/// The contents of a [`PendingCompression`].
pub struct PendingView {
    pub path: Seq<char>,
    pub input: PathBuf,
    pub outpath: Seq<char>,
    pub raw_meta: FileMeta,
    pub mtime: Option<u64>,
}

impl View for PendingCompression {
    type V = PendingView;

    open spec fn view(&self) -> PendingView {
        PendingView {
            path: self.path@,
            input: self.input,
            outpath: self.outpath@,
            raw_meta: self.raw_meta,
            mtime: self.mtime,
        }
    }
}

/// A visit whose file has to be hashed.
#[derive(Debug)]
pub struct Visit {
    /// Path of the file in the manifest.
    pub path: String,
    /// When the file was last modified.
    pub mtime: Option<u64>,
}

/// A visit that waits for a look into the cache.
#[derive(Debug)]
pub struct Probe {
    /// Path of the file in the manifest.
    pub path: String,
    /// When the file was last modified.
    pub mtime: Option<u64>,
    /// Size and checksum of the file.
    pub meta: FileMeta,
    /// Where the compressed file belongs, relative to the cache directory.
    pub outpath: String,
}

/// What a look into the cache found.
#[derive(Debug, Clone, Copy)]
pub enum CacheEntry {
    /// The compressed file is there, with this size and checksum.
    Found(FileMeta),
    /// There is no such file.
    Missing,
    /// The file could not be read.
    Failed,
}

/// Where a visit stands.
#[derive(Debug)]
pub enum VisitStep {
    /// The file is not taken.
    Ignored,
    /// The file has to be hashed; [`Visitor::input_hashed`] goes on.
    HashInput(Visit),
    /// The cache has to be looked into; [`Visitor::cache_probed`] goes on.
    ProbeCache(Probe),
    /// The file is in the manifest; the record is to be remembered.
    Recorded(QuickCheck),
    /// The file waits for compression.
    Queued,
    /// Something could not be read, and the file is given up.
    Abandoned,
}

/// The contents of a [`VisitStep`].
pub enum StepView {
    Ignored,
    HashInput { path: Seq<char>, mtime: Option<u64> },
    ProbeCache { path: Seq<char>, mtime: Option<u64>, meta: FileMeta, outpath: Seq<char> },
    Recorded(QuickCheckView),
    Queued,
    Abandoned,
}

impl View for VisitStep {
    type V = StepView;

    open spec fn view(&self) -> StepView {
        match *self {
            VisitStep::Ignored => StepView::Ignored,
            VisitStep::HashInput(v) => StepView::HashInput { path: v.path@, mtime: v.mtime },
            VisitStep::ProbeCache(p) => StepView::ProbeCache {
                path: p.path@,
                mtime: p.mtime,
                meta: p.meta,
                outpath: p.outpath@,
            },
            VisitStep::Recorded(q) => StepView::Recorded(q@),
            VisitStep::Queued => StepView::Queued,
            VisitStep::Abandoned => StepView::Abandoned,
        }
    }
}

/// Goes through files and builds the manifest.
pub struct Visitor {
    /// Counts of what happened so far.
    pub stats: Stats,
    /// Which paths to take.
    pub include_glob: GlobSet,
    /// Which of them to leave out again.
    pub exclude_glob: GlobSet,
    /// What is remembered from the last scan, by the CRC of the path.
    pub quickcheck: BTreeMap<u32, QuickCheck>,
    /// The previous manifest, without the files that were visited since.
    pub prev: FileMap,
    /// The new manifest.
    pub files: FileMap,
    /// Files that wait for compression.
    pub pending: Vec<PendingCompression>,
    /// Whether packs are taken too.
    pub include_pk: bool,
    /// The character between the components of a path on this machine.
    pub separator: char,
}

/// The contents of a [`Visitor`].
#[verifier::ext_equal]
pub struct CacheState {
    pub stats: Stats,
    pub include_glob: GlobSet,
    pub exclude_glob: GlobSet,
    pub quickcheck: Map<u32, QuickCheck>,
    pub prev: Map<Seq<char>, FileLine>,
    pub files: Map<Seq<char>, FileLine>,
    pub pending: Seq<PendingView>,
    pub include_pk: bool,
    pub separator: char,
}

impl View for Visitor {
    type V = CacheState;

    open spec fn view(&self) -> CacheState {
        CacheState {
            stats: self.stats,
            include_glob: self.include_glob,
            exclude_glob: self.exclude_glob,
            quickcheck: self.quickcheck@,
            prev: self.prev@,
            files: self.files@,
            pending: self.pending@.map_values(|p: PendingCompression| p@),
            include_pk: self.include_pk,
            separator: self.separator,
        }
    }
}

/// Whether a path is that of a pack, in whatever case its extension is written.
pub open spec fn is_pack(path: Seq<char>) -> bool {
    ".pk"@.is_suffix_of(lower(path))
}

/// Whether a path is taken: the patterns take it, and it is no pack, unless packs
/// are taken too.
pub open spec fn selected(s: CacheState, path: Seq<char>) -> bool {
    &&& set_matches(s.include_glob, path)
    &&& !set_matches(s.exclude_glob, path)
    &&& s.include_pk || !is_pack(path)
}

/// Whether what is remembered of a path still holds: a file with a known time
/// of modification that has not changed since.
pub open spec fn fresh(s: CacheState, path: Seq<char>, mtime: Option<u64>) -> bool {
    &&& s.quickcheck.contains_key(text_crc(path))
    &&& mtime is Some
    &&& s.quickcheck[text_crc(path)].mtime == mtime
}

/// Whether the previous manifest has the path with just this content.
pub open spec fn known(s: CacheState, path: Seq<char>, meta: FileMeta) -> bool {
    s.prev.contains_key(path) && s.prev[path].pair.raw == meta
}

/// The first step of a visit. A path that is not taken is counted and left alone. Otherwise the path is no longer remembered, and the visit goes on
/// with the remembered metadata where they still hold; where not, the file has
/// to be hashed.
pub open spec fn visited(s: CacheState, path: Seq<char>, mtime: Option<u64>) -> (
    CacheState,
    StepView,
) {
    let crc = text_crc(path);
    if !selected(s, path) {
        let stats = Stats { ignored: (s.stats.ignored + 1) as usize, ..s.stats };
        (CacheState { stats, ..s }, StepView::Ignored)
    } else if fresh(s, path, mtime) {
        let stats = Stats {
            total: (s.stats.total + 1) as usize,
            quickcheck: (s.stats.quickcheck + 1) as usize,
            ..s.stats
        };
        resolved(
            CacheState { stats, quickcheck: s.quickcheck.remove(crc), ..s },
            path,
            mtime,
            s.quickcheck[crc].meta,
        )
    } else {
        let stats = Stats { total: (s.stats.total + 1) as usize, ..s.stats };
        (
            CacheState { stats, quickcheck: s.quickcheck.remove(crc), ..s },
            StepView::HashInput { path, mtime },
        )
    }
}

/// The step of a visit once the metadata of the file are known. The path leaves
/// the previous manifest. A file that is unchanged keeps its record; for any
/// other the cache is looked into.
pub open spec fn resolved(
    s: CacheState,
    path: Seq<char>,
    mtime: Option<u64>,
    meta: FileMeta,
) -> (CacheState, StepView) {
    let prev = s.prev.remove(path);
    if known(s, path, meta) {
        let stats = Stats { unchanged: (s.stats.unchanged + 1) as usize, ..s.stats };
        (
            CacheState { stats, prev, files: s.files.insert(path, s.prev[path]), ..s },
            StepView::Recorded(QuickCheckView { path, mtime, meta }),
        )
    } else {
        (
            CacheState { prev, ..s },
            StepView::ProbeCache { path, mtime, meta, outpath: sd0_path(meta.hash@, s.separator) },
        )
    }
}

/// The step of a visit after the attempt to hash the file.
pub open spec fn hashed(
    s: CacheState,
    path: Seq<char>,
    mtime: Option<u64>,
    meta: Option<FileMeta>,
) -> (CacheState, StepView) {
    match meta {
        Some(meta) => resolved(s, path, mtime, meta),
        None => (s, StepView::Abandoned),
    }
}

/// The record of a file with a line checksum of its own.
pub open spec fn new_line(path: Seq<char>, pair: FileMetaPair) -> FileLine {
    FileLine { pair, linesum: md5(line_text(path, pair)) }
}

/// The step of a visit after the look into the cache. A compressed file that is
/// there is used again; one that is not has to be made.
pub open spec fn probed(
    s: CacheState,
    path: Seq<char>,
    mtime: Option<u64>,
    meta: FileMeta,
    outpath: Seq<char>,
    input: PathBuf,
    entry: CacheEntry,
) -> (CacheState, StepView) {
    match entry {
        CacheEntry::Found(compressed) => {
            let stats = Stats { cached_sd0: (s.stats.cached_sd0 + 1) as usize, ..s.stats };
            let line = new_line(path, FileMetaPair { raw: meta, compressed });
            (
                CacheState { stats, files: s.files.insert(path, line), ..s },
                StepView::Recorded(QuickCheckView { path, mtime, meta }),
            )
        },
        CacheEntry::Missing => {
            let p = PendingView { path, input, outpath, raw_meta: meta, mtime };
            (CacheState { pending: s.pending.push(p), ..s }, StepView::Queued)
        },
        CacheEntry::Failed => (s, StepView::Abandoned),
    }
}

/// The state after a listed file turned out not to exist: nothing is remembered
/// of it, and the previous manifest no longer has it.
pub open spec fn forgotten(s: CacheState, path: Seq<char>) -> CacheState {
    CacheState {
        quickcheck: s.quickcheck.remove(text_crc(path)),
        prev: s.prev.remove(path),
        ..s
    }
}

/// How many of the files were compressed.
pub open spec fn successes(pairs: Seq<Option<FileMetaPair>>) -> nat {
    pairs.filter(|p: Option<FileMetaPair>| p is Some).len()
}

/// The manifest after the results of compression went in, in the order of the
/// queue.
pub open spec fn flushed_files(
    files: Map<Seq<char>, FileLine>,
    pending: Seq<PendingView>,
    pairs: Seq<Option<FileMetaPair>>,
) -> Map<Seq<char>, FileLine>
    decreases pairs.len(),
{
    if pairs.len() == 0 {
        files
    } else {
        let before = flushed_files(files, pending, pairs.drop_last());
        let path = pending[pairs.len() - 1].path;
        match pairs.last() {
            Some(pair) => before.insert(path, new_line(path, pair)),
            None => before,
        }
    }
}

/// What is to be remembered of the files that were compressed, in the order of
/// the queue.
pub open spec fn flushed_checks(
    pending: Seq<PendingView>,
    pairs: Seq<Option<FileMetaPair>>,
) -> Seq<QuickCheckView>
    decreases pairs.len(),
{
    if pairs.len() == 0 {
        Seq::<QuickCheckView>::empty()
    } else {
        let before = flushed_checks(pending, pairs.drop_last());
        let p = pending[pairs.len() - 1];
        match pairs.last() {
            Some(_) => before.push(
                QuickCheckView { path: p.path, mtime: p.mtime, meta: p.raw_meta },
            ),
            None => before,
        }
    }
}

/// The contents of a list of records to remember.
pub open spec fn check_views(checks: Seq<QuickCheck>) -> Seq<QuickCheckView> {
    checks.map_values(|q: QuickCheck| q@)
}

/// The state after the results of compression went in.
pub open spec fn flushed(s: CacheState, pairs: Seq<Option<FileMetaPair>>) -> CacheState {
    CacheState {
        stats: Stats { compress: (s.stats.compress + successes(pairs)) as usize, ..s.stats },
        files: flushed_files(s.files, s.pending, pairs),
        pending: Seq::<PendingView>::empty(),
        ..s
    }
}

/// The state after the untouched part of the previous manifest went into the new
/// one.
pub open spec fn adopted(s: CacheState) -> CacheState {
    CacheState {
        files: s.files.union_prefer_right(s.prev),
        prev: Map::<Seq<char>, FileLine>::empty(),
        quickcheck: Map::<u32, QuickCheck>::empty(),
        ..s
    }
}

/// What is known of a listed file.
#[derive(Debug, Clone, Copy)]
pub enum FileStatus {
    /// It exists and was last modified then, where that is known.
    Present(Option<u64>),
    /// It does not exist.
    Missing,
    /// It may exist, but nothing could be found out.
    Unreadable,
}

/// A line of a list of files.
#[derive(Debug)]
pub struct ScanTarget {
    /// Path of the file in the manifest.
    pub path: String,
    /// Where the file is, below the project directory.
    pub components: Vec<String>,
}

/// Reads one line of a list of files. Slashes count as backslashes. A line that
/// lacks the prefix is refused. The path keeps the prefix; the location is what
/// follows it, without white space around it, cut at the backslashes.
pub fn scan_target(line: &str, prefix: &str) -> (r: Option<ScanTarget>)
    ensures
        r is Some == prefix@.is_prefix_of(replaced(line@, '/', '\\')),
        r matches Some(t) ==> {
            &&& t.path@ == replaced(line@, '/', '\\')
            &&& texts(t.components@) == split(trimmed(t.path@.skip(prefix@.len() as int)), '\\')
        },
{
    let path = replace_char(line, '/', '\\');
    match strip_prefix(path.as_str(), prefix) {
        Some(rest) => {
            let location = trim(rest.as_str());
            let components = split_text(location.as_str(), '\\');
            Some(ScanTarget { path, components })
        },
        None => None,
    }
}

/// The prefix that lines of a list of files have to start with: none where the
/// list is relative to the project directory.
pub fn listing_prefix(relative: bool, prefix: &str) -> (r: &str)
    ensures
        relative ==> r@ == Seq::<char>::empty(),
        !relative ==> r@ == prefix@,
{
    if relative {
        proof {
            reveal_strlit("");
        }
        assert(""@ =~= Seq::<char>::empty());
        ""
    } else {
        prefix
    }
}

/// The name of the file that remembers the last scan of a project.
pub fn quickcheck_file_name(project: &str) -> (r: String)
    ensures
        r@ == project@ + ".quickcheck.txt"@,
{
    let mut r = project.to_owned();
    r.append(".quickcheck.txt");
    r
}

/// The patterns that take paths in: everything, where none are given.
pub open spec fn include_patterns(patterns: Seq<Seq<char>>) -> Seq<Seq<char>> {
    if patterns.len() == 0 {
        seq![everything()]
    } else {
        patterns
    }
}

/// Builds the set of patterns that take paths in.
pub fn include_glob(patterns: &Vec<String>) -> (r: Result<GlobSet, GlobError>)
    ensures
        built_from(r, include_patterns(texts(patterns@))),
        patterns.len() == 0 ==> r is Ok,
{
    if patterns.len() == 0 {
        proof {
            reveal_strlit("**");
        }
        assert(plain_pattern(everything()));
        let mut all: Vec<String> = Vec::new();
        all.push("**".to_owned());
        assert(texts(all@) =~= include_patterns(texts(patterns@)));
        glob_set(&all)
    } else {
        glob_set(patterns)
    }
}

/// Builds the set of patterns that leave paths out.
pub fn exclude_glob(patterns: &Vec<String>) -> (r: Result<GlobSet, GlobError>)
    ensures
        built_from(r, texts(patterns@)),
        patterns.len() == 0 ==> r is Ok,
{
    glob_set(patterns)
}

/// The cache path of the file with the given checksum, on this machine.
pub fn hash_to_path(hash: &[u8; 16], separator: char) -> (r: String)
    ensures
        r@ == sd0_path(hash@, separator),
{
    sd0_path_of(hash, separator)
}

/// Tells whether a path is that of a pack.
pub fn names_pack(path: &str) -> (r: bool)
    ensures
        r == is_pack(path@),
{
    ends_with(to_lower(path).as_str(), ".pk")
}

impl Visitor {
    /// A visitor that has seen nothing yet. It takes packs where that is asked for,
    /// and ignores them otherwise. The separator is the one that paths on
    /// this machine have between their components.
    pub fn new(
        include_glob: GlobSet,
        exclude_glob: GlobSet,
        quickcheck: BTreeMap<u32, QuickCheck>,
        prev: FileMap,
        include_pk: bool,
        separator: char,
    ) -> (r: Visitor)
        ensures
            r.include_pk == include_pk,
            r.separator == separator,
            r.include_glob == include_glob,
            r.exclude_glob == exclude_glob,
            r.quickcheck == quickcheck,
            r.prev == prev,
            r@.files == Map::<Seq<char>, FileLine>::empty(),
            r@.pending == Seq::<PendingView>::empty(),
            r.stats == (Stats {
                quickcheck: 0,
                cached_sd0: 0,
                unchanged: 0,
                compress: 0,
                total: 0,
                ignored: 0,
            }),
    {
        let r = Visitor {
            stats: Stats::default(),
            include_glob,
            exclude_glob,
            quickcheck,
            prev,
            files: FileMap::new(),
            pending: Vec::new(),
            include_pk,
            separator,
        };
        assert(r@.pending =~= Seq::<PendingView>::empty());
        r
    }

    /// Starts the visit of a file.
    pub fn visit(&mut self, path: String, mtime: Option<u64>) -> (r: VisitStep)
        requires
            old(self).stats.room(),
        ensures
            (final(self)@, r@) == visited(old(self)@, path@, mtime),
    {
        broadcast use vstd::std_specs::btree::group_btree_axioms;

        if !matches_any(&self.include_glob, path.as_str()) || matches_any(
            &self.exclude_glob,
            path.as_str(),
        ) || (!self.include_pk && names_pack(path.as_str())) {
            self.stats.ignored += 1;
            return VisitStep::Ignored;
        }
        self.stats.total += 1;
        let crc: u32 = crc_of_text(path.as_str());
        let remembered = self.quickcheck.remove(&crc);
        match remembered {
            Some(qc) => {
                if mtime.is_some() && qc.mtime == mtime {
                    self.stats.quickcheck += 1;
                    return self.resolve(path, mtime, qc.meta);
                }
            },
            None => {},
        }
        VisitStep::HashInput(Visit { path, mtime })
    }

    /// Goes on with a file whose metadata are known.
    fn resolve(&mut self, path: String, mtime: Option<u64>, meta: FileMeta) -> (r: VisitStep)
        requires
            old(self).stats.unchanged < usize::MAX,
        ensures
            (final(self)@, r@) == resolved(old(self)@, path@, mtime, meta),
    {
        let old_line = self.prev.remove(path.as_str());
        match old_line {
            Some(line) => {
                if line.pair.raw.same(&meta) {
                    self.stats.unchanged += 1;
                    self.files.insert(path.clone(), line);
                    return VisitStep::Recorded(QuickCheck { path, mtime, meta });
                }
            },
            None => {},
        }
        let outpath = hash_to_path(&meta.hash, self.separator);
        VisitStep::ProbeCache(Probe { path, mtime, meta, outpath })
    }

    /// Goes on with a file after the attempt to hash it.
    pub fn input_hashed(&mut self, visit: Visit, meta: Option<FileMeta>) -> (r: VisitStep)
        requires
            meta is Some ==> old(self).stats.unchanged < usize::MAX,
        ensures
            (final(self)@, r@) == hashed(old(self)@, visit.path@, visit.mtime, meta),
    {
        match meta {
            Some(meta) => self.resolve(visit.path, visit.mtime, meta),
            None => VisitStep::Abandoned,
        }
    }

    /// Goes on with a file after the look into the cache.
    pub fn cache_probed(&mut self, probe: Probe, input: PathBuf, entry: CacheEntry) -> (r:
        VisitStep)
        requires
            entry is Found ==> old(self).stats.cached_sd0 < usize::MAX,
        ensures
            (final(self)@, r@) == probed(
                old(self)@,
                probe.path@,
                probe.mtime,
                probe.meta,
                probe.outpath@,
                input,
                entry,
            ),
    {
        match entry {
            CacheEntry::Found(compressed) => {
                self.stats.cached_sd0 += 1;
                let line = file_line(
                    probe.path.as_str(),
                    FileMetaPair { raw: probe.meta, compressed },
                );
                self.files.insert(probe.path.clone(), line);
                VisitStep::Recorded(
                    QuickCheck { path: probe.path, mtime: probe.mtime, meta: probe.meta },
                )
            },
            CacheEntry::Missing => {
                let ghost before = self@.pending;
                let p = PendingCompression {
                    path: probe.path,
                    input,
                    outpath: probe.outpath,
                    raw_meta: probe.meta,
                    mtime: probe.mtime,
                };
                self.pending.push(p);
                assert(self@.pending =~= before.push(p@));
                VisitStep::Queued
            },
            CacheEntry::Failed => VisitStep::Abandoned,
        }
    }

    /// Starts the visit of a file that was found in a directory. Paths do not
    /// depend on case: the manifest has them in small letters.
    pub fn visit_file(&mut self, path: &str, mtime: Option<u64>) -> (r: VisitStep)
        requires
            old(self).stats.room(),
        ensures
            (final(self)@, r@) == visited(old(self)@, lower(path@), mtime),
    {
        self.visit(to_lower(path), mtime)
    }

    /// Starts the visit of a file that was found in a list, or forgets a file
    /// that does not exist.
    pub fn do_scan_file(&mut self, path: String, status: FileStatus) -> (r: Option<VisitStep>)
        requires
            status !is Missing ==> old(self).stats.room(),
        ensures
            status is Missing ==> r is None && final(self)@ == forgotten(old(self)@, path@),
            status matches FileStatus::Present(mtime) ==> {
                &&& r matches Some(step)
                &&& (final(self)@, step@) == visited(old(self)@, path@, mtime)
            },
            status is Unreadable ==> {
                &&& r matches Some(step)
                &&& (final(self)@, step@) == visited(old(self)@, path@, None)
            },
    {
        broadcast use vstd::std_specs::btree::group_btree_axioms;

        match status {
            FileStatus::Present(mtime) => Some(self.visit(path, mtime)),
            FileStatus::Missing => {
                let crc: u32 = crc_of_text(path.as_str());
                self.quickcheck.remove(&crc);
                self.prev.remove(path.as_str());
                None
            },
            FileStatus::Unreadable => Some(self.visit(path, None)),
        }
    }

    /// Takes in the results of compressing the queued files: for each file its
    /// metadata, or nothing where compression failed. Files that failed are
    /// dropped. Returns what is to be remembered.
    pub fn flush_pending(&mut self, pairs: Vec<Option<FileMetaPair>>) -> (r: Vec<QuickCheck>)
        requires
            pairs.len() == old(self).pending.len(),
            old(self).stats.compress + pairs.len() <= usize::MAX,
        ensures
            final(self)@ == flushed(old(self)@, pairs@),
            check_views(r@) == flushed_checks(old(self)@.pending, pairs@),
    {
        let ghost start = self@;
        let mut pending: Vec<PendingCompression> = Vec::new();
        std::mem::swap(&mut pending, &mut self.pending);
        assert(self@.pending =~= Seq::<PendingView>::empty());
        let mut checks: Vec<QuickCheck> = Vec::new();
        let mut count: usize = 0;
        let mut i: usize = 0;
        let ghost done = |p: Option<FileMetaPair>| p is Some;
        assert(pairs@.take(0) =~= Seq::<Option<FileMetaPair>>::empty());
        assert(pairs@.take(0).filter(done).len() == 0) by {
            reveal(Seq::filter);
        }
        while i < pairs.len()
            invariant
                i <= pairs.len(),
                pairs.len() == pending.len(),
                start.pending == pending@.map_values(|p: PendingCompression| p@),
                count == successes(pairs@.take(i as int)),
                count <= i,
                self@ == (CacheState {
                    files: flushed_files(start.files, start.pending, pairs@.take(i as int)),
                    pending: Seq::<PendingView>::empty(),
                    ..start
                }),
                check_views(checks@) == flushed_checks(start.pending, pairs@.take(i as int)),
            decreases pairs.len() - i,
        {
            let p = &pending[i];
            let ghost so_far = check_views(checks@);
            proof {
                assert(pairs@.take(i + 1).drop_last() =~= pairs@.take(i as int));
                assert(start.pending[i as int] == p@);
                reveal(Seq::filter);
            }
            match pairs[i] {
                Some(pair) => {
                    count += 1;
                    let check = QuickCheck {
                        path: p.path.clone(),
                        mtime: p.mtime,
                        meta: p.raw_meta,
                    };
                    let line = file_line(p.path.as_str(), pair);
                    self.files.insert(p.path.clone(), line);
                    checks.push(check);
                    assert(check_views(checks@) =~= so_far.push(check@));
                },
                None => {},
            }
            i += 1;
        }
        assert(pairs@.take(pairs.len() as int) =~= pairs@);
        self.stats.compress += count;
        checks
    }

    /// Ends a scan of listed files: everything in the previous manifest that was
    /// not visited goes into the new one as it was. Returns what is still
    /// remembered, by the CRC of the path.
    pub fn adopt_untouched(&mut self) -> (r: BTreeMap<u32, QuickCheck>)
        ensures
            r@ == old(self)@.quickcheck,
            final(self)@ == adopted(old(self)@),
    {
        let mut prev = FileMap::new();
        std::mem::swap(&mut prev, &mut self.prev);
        self.files.append(prev);
        let mut remembered: BTreeMap<u32, QuickCheck> = BTreeMap::new();
        std::mem::swap(&mut remembered, &mut self.quickcheck);
        remembered
    }
}

} // verus!

//! Game detection: matching running processes against the game database,
//! with a cache of earlier matching results.
use vstd::prelude::*;
use crate::activity::types::ActiveView;
use crate::activity::{realizes_all, scan_step, sighting_views, sightings_view, ActivityManager, SightingView};
use crate::activity::types::ActivityMessage;
use crate::outside::{duration_from_secs, seconds_duration};
use crate::database::{copy_opt, entry_list, opt_view, DatabaseChange, EntryView, ExeView, ExecutableEntry, GameDatabase, GameEntry};
use crate::process::database::{arguments_match, arguments_match_args, name_matches, name_matches_variants};
use crate::process::path_processor::{
    cleaned, cleaned_variants, lemma_cleaned_has_marker_removed, lemma_dedup_keeps, lemma_suffixes_have_last, normalized_path,
    path_suffixes, suffixes_of,
};
use crate::text::{
    char_views, chars_of, dedup, dedup_list, split_cmdline, cmdline_arguments, cmdline_executable,
    string_from_chars, string_views, strings_from_lists, replace_char_in, to_lowercase,
    copy_string, copy_strings, str_eq, strings_equal, contains_seq, remove_all, split_on,
};

verus! {

/// The executable is no launcher and matches the path variants and the
/// process arguments.
pub open spec fn exe_matches(e: ExeView, variants: Seq<Seq<char>>, args: Seq<Seq<char>>) -> bool {
    !e.is_launcher && name_matches(e.name, variants) && arguments_match(e.arguments, args)
}

/// Some executable of the game matches.
pub open spec fn entry_matches(g: EntryView, variants: Seq<Seq<char>>, args: Seq<Seq<char>>) -> bool {
    exists|i: int| 0 <= i < g.executables.len() && exe_matches(#[trigger] g.executables[i], variants, args)
}

/// The position of the first game of `db` that matches, if any.
pub open spec fn first_matching(db: Seq<EntryView>, variants: Seq<Seq<char>>, args: Seq<Seq<char>>) -> Option<int>
    decreases db.len(),
{
    if db.len() == 0 {
        None
    } else {
        match first_matching(db.drop_last(), variants, args) {
            Some(j) => Some(j),
            None => if entry_matches(db.last(), variants, args) {
                Some(db.len() - 1)
            } else {
                None
            },
        }
    }
}

/// The position of the first game of `db` with the id, if any.
pub open spec fn first_with_id(db: Seq<EntryView>, id: Seq<char>) -> Option<int>
    decreases db.len(),
{
    if db.len() == 0 {
        None
    } else {
        match first_with_id(db.drop_last(), id) {
            Some(j) => Some(j),
            None => if db.last().id == id {
                Some(db.len() - 1)
            } else {
                None
            },
        }
    }
}

/// A position found by `first_matching` is in range, and its game matches.
pub proof fn lemma_first_matching(db: Seq<EntryView>, variants: Seq<Seq<char>>, args: Seq<Seq<char>>)
    ensures
        match first_matching(db, variants, args) {
            Some(j) => 0 <= j < db.len() && entry_matches(db[j], variants, args)
                && forall|k: int| 0 <= k < j ==> !entry_matches(#[trigger] db[k], variants, args),
            None => forall|k: int| 0 <= k < db.len() ==> !entry_matches(#[trigger] db[k], variants, args),
        },
    decreases db.len(),
{
    if db.len() > 0 {
        lemma_first_matching(db.drop_last(), variants, args);
        let d = db.drop_last();
        match first_matching(d, variants, args) {
            Some(j) => {
                assert(db[j] == d[j]);
                assert forall|k: int| 0 <= k < j implies !entry_matches(#[trigger] db[k], variants, args) by {
                    assert(db[k] == d[k]);
                }
            },
            None => {
                assert forall|k: int| 0 <= k < db.len() - 1 implies !entry_matches(#[trigger] db[k], variants, args) by {
                    assert(db[k] == d[k]);
                }
            },
        }
    }
}

/// A position found by `first_with_id` is in range and has the id.
pub proof fn lemma_first_with_id(db: Seq<EntryView>, id: Seq<char>)
    ensures
        match first_with_id(db, id) {
            Some(j) => 0 <= j < db.len() && db[j].id == id
                && forall|k: int| 0 <= k < j ==> #[trigger] db[k].id != id,
            None => forall|k: int| 0 <= k < db.len() ==> #[trigger] db[k].id != id,
        },
    decreases db.len(),
{
    if db.len() > 0 {
        lemma_first_with_id(db.drop_last(), id);
        let d = db.drop_last();
        match first_with_id(d, id) {
            Some(j) => {
                assert(db[j] == d[j]);
                assert forall|k: int| 0 <= k < j implies #[trigger] db[k].id != id by {
                    assert(db[k] == d[k]);
                }
            },
            None => {
                assert forall|k: int| 0 <= k < db.len() - 1 implies #[trigger] db[k].id != id by {
                    assert(db[k] == d[k]);
                }
            },
        }
    }
}

/// Matches processed paths against the game database.
pub struct Matcher;

impl Matcher {
    /// The first game of the database with a non-launcher executable that
    /// matches the path variants and the arguments.
    pub fn find_match<'a>(&self, db: &'a GameDatabase, path_info: &ProcessedPath, args: &[String]) -> (r: Option<&'a GameEntry>)
        ensures
            match first_matching(db.games(), string_views(path_info.variants@), string_views(args@)) {
                Some(j) => r matches Some(g) && g@ == db.games()[j],
                None => r is None,
            },
    {
        let ghost gv = db.games();
        let ghost vs = string_views(path_info.variants@);
        let ghost av = string_views(args@);
        let n = db.entries.len();
        proof { assert(gv == entry_list(db.entries@)); }
        for i in 0..n
            invariant
                n == db.entries@.len(),
                gv == entry_list(db.entries@),
                gv == db.games(),
                vs == string_views(path_info.variants@),
                av == string_views(args@),
                first_matching(gv.take(i as int), vs, av) is None,
        {
            assert(gv.take(i + 1).drop_last() =~= gv.take(i as int));
            assert(gv.take(i + 1).last() == db.entries@[i as int]@);
            let entry = &db.entries[i];
            let m = entry.executables.len();
            for x in 0..m
                invariant
                    m == entry.executables@.len(),
                    vs == string_views(path_info.variants@),
                    av == string_views(args@),
                    n == db.entries@.len(),
                    i < n,
                    gv == entry_list(db.entries@),
                    gv == db.games(),
                    first_matching(gv.take(i as int), vs, av) is None,
                    gv.take(i + 1).drop_last() == gv.take(i as int),
                    gv.take(i + 1).last() == entry@,
                    forall|k: int| 0 <= k < x ==> !exe_matches(#[trigger] entry@.executables[k], vs, av),
            {
                let exe = &entry.executables[x];
                assert(entry@.executables[x as int] == exe@);
                if !exe.is_launcher && self.matches_executable(exe, path_info, args) {
                    assert(entry_matches(entry@, vs, av));
                    proof { lemma_first_matching(gv.take(i + 1), vs, av); }
                    assert(first_matching(gv.take(i + 1), vs, av) == Some(i as int));
                    proof { first_matching_prefix(gv, (i + 1) as int, vs, av); }
                    return Some(entry);
                }
            }
            assert(!entry_matches(entry@, vs, av));
        }
        assert(gv.take(n as int) =~= gv);
        None
    }

    /// Whether the executable matches the path variants and the arguments.
    pub fn matches_executable(&self, executable: &ExecutableEntry, path_info: &ProcessedPath, args: &[String]) -> (r: bool)
        ensures
            r == (name_matches(executable@.name, string_views(path_info.variants@))
                && arguments_match(executable@.arguments, string_views(args@))),
    {
        if !name_matches_variants(&executable.name, &path_info.variants) {
            return false;
        }
        arguments_match_args(&executable.arguments, args)
    }
}

/// Once a prefix of `db` has a first match, `db` has the same one.
pub proof fn first_matching_prefix(db: Seq<EntryView>, k: int, variants: Seq<Seq<char>>, args: Seq<Seq<char>>)
    requires
        0 <= k <= db.len(),
        first_matching(db.take(k), variants, args) is Some,
    ensures
        first_matching(db, variants, args) == first_matching(db.take(k), variants, args),
    decreases db.len() - k,
{
    if k < db.len() {
        assert(db.take(k + 1).drop_last() =~= db.take(k));
        first_matching_prefix(db, k + 1, variants, args);
    } else {
        assert(db.take(k) =~= db);
    }
}

/// A running process as read from `/proc`.
pub struct ProcessInfo {
    pub pid: u32,
    pub executable_path: String,
    pub arguments: Vec<String>,
}

/// Scans the processes listed under a `proc` directory.
pub struct ProcessScanner {
    proc_path: String,
}

impl ProcessScanner {
    /// A scanner of `/proc`.
    pub fn new() -> (r: Self)
        ensures
            r.proc_path() == "/proc"@,
    {
        ProcessScanner { proc_path: string_from_chars(chars_of("/proc").as_slice()) }
    }

    /// The directory that is scanned.
    pub closed spec fn proc_path(&self) -> Seq<char> {
        self.proc_path@
    }

    /// The directory that is scanned.
    pub fn get_proc_path(&self) -> (r: &str)
        ensures
            r@ == self.proc_path(),
    {
        self.proc_path.as_str()
    }

    /// Splits the content of a `cmdline` file into the executable and its
    /// arguments.
    pub fn parse_cmdline(&self, content: &str) -> (r: (String, Vec<String>))
        ensures
            r.0@ == cmdline_executable(content@),
            string_views(r.1@) == cmdline_arguments(content@),
    {
        split_cmdline(content)
    }
}

/// The name variants of a processed path.
pub struct ProcessedPath {
    pub variants: Vec<String>,
}

/// Produces the name variants of executable paths.
pub struct PathProcessor;

/// Each suffix followed by its cleaned forms (empty ones left out).
pub open spec fn with_cleaned(vs: Seq<Seq<char>>) -> Seq<Seq<char>>
    decreases vs.len(),
{
    if vs.len() == 0 {
        Seq::<Seq<char>>::empty()
    } else {
        with_cleaned(vs.drop_last()) + seq![vs.last()] + cleaned(vs.last(), true)
    }
}

/// The variants of a path: each proper suffix followed by its cleaned forms,
/// first occurrences kept.
pub open spec fn detection_variants(path: Seq<char>) -> Seq<Seq<char>> {
    dedup(with_cleaned(path_suffixes(normalized_path(path))))
}

proof fn lemma_with_cleaned_has(vs: Seq<Seq<char>>, i: int, x: Seq<char>)
    requires
        0 <= i < vs.len(),
        x == vs[i] || cleaned(vs[i], true).contains(x),
    ensures
        with_cleaned(vs).contains(x),
    decreases vs.len(),
{
    let a = with_cleaned(vs.drop_last());
    let c = cleaned(vs.last(), true);
    let w = a + seq![vs.last()] + c;
    assert(with_cleaned(vs) == w);
    if i == vs.len() - 1 {
        if x == vs[i] {
            assert(w[a.len() as int] == x);
        } else {
            let k = choose|k: int| 0 <= k < c.len() && c[k] == x;
            assert(w[a.len() + 1 + k] == x);
        }
    } else {
        assert(vs.drop_last()[i] == vs[i]);
        lemma_with_cleaned_has(vs.drop_last(), i, x);
        let k = choose|k: int| 0 <= k < a.len() && a[k] == x;
        assert(w[k] == x);
    }
}

/// Every 64-bit marker (`64`, `.x64`, `x64`, `_64`) is stripped when
/// detecting: when the last component of the normalized path (one with a
/// directory) contains one, the variants hold that component, and that
/// component with every occurrence of the marker removed unless nothing is
/// left of it.
pub proof fn law_detection_strips_markers(path: Seq<char>, m: Seq<char>)
    requires
        m == seq!['6', '4'] || m == seq!['.', 'x', '6', '4'] || m == seq!['x', '6', '4'] || m == seq!['_', '6', '4'],
        split_on(normalized_path(path), '/').len() >= 2,
        split_on(normalized_path(path), '/').last().len() > 0,
        contains_seq(split_on(normalized_path(path), '/').last(), m),
    ensures
        detection_variants(path).contains(split_on(normalized_path(path), '/').last()),
        remove_all(split_on(normalized_path(path), '/').last(), m).len() > 0
            ==> detection_variants(path).contains(remove_all(split_on(normalized_path(path), '/').last(), m)),
{
    let parts = split_on(normalized_path(path), '/');
    let c = parts.last();
    let base = path_suffixes(normalized_path(path));
    lemma_suffixes_have_last(parts, parts.len());
    let i = choose|i: int| 0 <= i < base.len() && base[i] == c;
    lemma_with_cleaned_has(base, i, c);
    lemma_dedup_keeps(with_cleaned(base), c);
    if remove_all(c, m).len() > 0 {
        lemma_cleaned_has_marker_removed(c, m, true);
        lemma_with_cleaned_has(base, i, remove_all(c, m));
        lemma_dedup_keeps(with_cleaned(base), remove_all(c, m));
    }
}

impl PathProcessor {
    /// A path processor.
    pub fn new() -> (r: Self) {
        PathProcessor
    }

    /// The variants of an executable path (see `detection_variants`).
    pub fn process_path(&self, path: &str) -> (r: ProcessedPath)
        ensures
            string_views(r.variants@) == detection_variants(path@),
    {
        let lowered = to_lowercase(path);
        let chars = chars_of(lowered.as_str());
        let normalized = replace_char_in(chars.as_slice(), '\\', '/');
        assert(normalized@ == normalized_path(path@));
        let base = suffixes_of(normalized.as_slice());
        let ghost bv = char_views(base@);
        let mut all: Vec<Vec<char>> = Vec::new();
        let n = base.len();
        for i in 0..n
            invariant
                n == base@.len(),
                bv == char_views(base@),
                char_views(all@) == with_cleaned(bv.take(i as int)),
        {
            assert(bv.take(i + 1).drop_last() =~= bv.take(i as int));
            assert(bv.take(i + 1).last() == base@[i as int]@);
            let first = base[i].clone();
            let ghost b0 = all@;
            all.push(first);
            assert(char_views(all@) =~= char_views(b0) + seq![base@[i as int]@]);
            let extra = Self::generate_cleaned_variants(&base[i]);
            let ghost before = all@;
            let m = extra.len();
            let mut k: usize = 0;
            while k < m
                invariant
                    m == extra@.len(),
                    k <= m,
                    char_views(all@) == char_views(before) + char_views(extra@).take(k as int),
                decreases m - k,
            {
                let item = extra[k].clone();
                let ghost prev = all@;
                all.push(item);
                assert(char_views(all@) =~= char_views(prev).push(extra@[k as int]@));
                assert(char_views(extra@).take(k + 1) =~= char_views(extra@).take(k as int).push(extra@[k as int]@));
                k = k + 1;
            }
            assert(char_views(extra@).take(m as int) =~= char_views(extra@));
            assert(char_views(all@) =~= with_cleaned(bv.take(i + 1)));
        }
        assert(bv.take(n as int) =~= bv);
        let unique = dedup_list(&all);
        ProcessedPath { variants: strings_from_lists(&unique) }
    }

    /// The non-empty forms of `variant` with a 64-bit marker removed that
    /// differ from it.
    pub fn generate_cleaned_variants(variant: &Vec<char>) -> (r: Vec<Vec<char>>)
        ensures
            char_views(r@) == cleaned(variant@, true),
    {
        cleaned_variants(variant, true)
    }
}


/// The plain content of a process.
pub struct ProcView {
    pub pid: u32,
    pub path: Seq<char>,
    pub args: Seq<Seq<char>>,
}

impl View for ProcessInfo {
    type V = ProcView;

    open spec fn view(&self) -> ProcView {
        ProcView { pid: self.pid, path: self.executable_path@, args: string_views(self.arguments@) }
    }
}

/// The views of a list of processes.
pub open spec fn proc_list(v: Seq<ProcessInfo>) -> Seq<ProcView> {
    v.map_values(|p: ProcessInfo| p@)
}

/// What the cache is keyed by: the executable path and the arguments.
pub type CacheKey = (Seq<char>, Seq<Seq<char>>);

/// The cache key of a process.
pub open spec fn proc_key(p: ProcView) -> CacheKey {
    (p.path, p.args)
}

/// The position of the game a fresh match finds for the path and arguments.
pub open spec fn fresh_index(db: Seq<EntryView>, path: Seq<char>, args: Seq<Seq<char>>) -> Option<int> {
    first_matching(db, detection_variants(path), args)
}

/// The id of the game a fresh match finds for the path and arguments.
pub open spec fn fresh_id(db: Seq<EntryView>, path: Seq<char>, args: Seq<Seq<char>>) -> Option<Seq<char>> {
    match fresh_index(db, path, args) {
        Some(j) => Some(db[j].id),
        None => None,
    }
}

/// A process answered from a cached game id: the first game with that id.
pub open spec fn cached_outcome(db: Seq<EntryView>, p: ProcView, id: Option<Seq<char>>) -> Option<(EntryView, u32)> {
    match id {
        Some(id) => match first_with_id(db, id) {
            Some(j) => Some((db[j], p.pid)),
            None => None,
        },
        None => None,
    }
}

/// A process matched afresh against the database.
pub open spec fn fresh_outcome(db: Seq<EntryView>, p: ProcView) -> Option<(EntryView, u32)> {
    match fresh_index(db, p.path, p.args) {
        Some(j) => Some((db[j], p.pid)),
        None => None,
    }
}

pub open spec fn push_found(s: Seq<(EntryView, u32)>, o: Option<(EntryView, u32)>) -> Seq<(EntryView, u32)> {
    match o {
        Some(x) => s.push(x),
        None => s,
    }
}

/// The cache keys of the processes, in order.
pub open spec fn keys_of(procs: Seq<ProcView>) -> Seq<CacheKey> {
    procs.map_values(|p: ProcView| proc_key(p))
}

/// The distinct cache keys of the processes.
pub open spec fn key_set(procs: Seq<ProcView>) -> Set<CacheKey> {
    Set::new(|k: CacheKey| keys_of(procs).contains(k))
}

/// Going through the processes in order with the cache `cache`: a process
/// whose key is cached is answered from the cache, any other is matched
/// afresh and its result is cached. The games detected, in process order,
/// and the cache afterwards.
pub open spec fn scan_cache(db: Seq<EntryView>, procs: Seq<ProcView>, cache: Map<CacheKey, Option<Seq<char>>>)
    -> (Seq<(EntryView, u32)>, Map<CacheKey, Option<Seq<char>>>)
    decreases procs.len(),
{
    if procs.len() == 0 {
        (Seq::empty(), cache)
    } else {
        let (found, c) = scan_cache(db, procs.drop_last(), cache);
        let p = procs.last();
        let k = proc_key(p);
        if c.dom().contains(k) {
            (push_found(found, cached_outcome(db, p, c[k])), c)
        } else {
            (push_found(found, fresh_outcome(db, p)), c.insert(k, fresh_id(db, p.path, p.args)))
        }
    }
}

/// The cache after a scan: when it holds more than twice as many results
/// as the scan had distinct keys, only the results for the scan's keys stay.
pub open spec fn after_scan(db: Seq<EntryView>, procs: Seq<ProcView>, cache: Map<CacheKey, Option<Seq<char>>>)
    -> Map<CacheKey, Option<Seq<char>>>
{
    let grown = scan_cache(db, procs, cache).1;
    if grown.dom().len() > 2 * key_set(procs).len() {
        grown.restrict(key_set(procs))
    } else {
        grown
    }
}

/// The games detected by matching every process afresh.
pub open spec fn fresh_scan(db: Seq<EntryView>, procs: Seq<ProcView>) -> Seq<(EntryView, u32)>
    decreases procs.len(),
{
    if procs.len() == 0 {
        Seq::empty()
    } else {
        push_found(fresh_scan(db, procs.drop_last()), fresh_outcome(db, procs.last()))
    }
}

/// Every cached result is what a fresh match against `db` gives.
pub open spec fn cache_agrees(cache: Map<CacheKey, Option<Seq<char>>>, db: Seq<EntryView>) -> bool {
    forall|k: CacheKey| #[trigger] cache.dom().contains(k) ==> cache[k] == fresh_id(db, k.0, k.1)
}

/// No two games of the database share an id.
pub open spec fn ids_unique(db: Seq<EntryView>) -> bool {
    forall|i: int, j: int| 0 <= i < j < db.len() ==> db[i].id != db[j].id
}

/// The cache is transparent: while it agrees with the database, and the
/// database has no id twice, a scan detects exactly what matching every
/// process afresh detects, and the cache still agrees afterwards.
pub proof fn law_cache_is_transparent(db: Seq<EntryView>, procs: Seq<ProcView>, cache: Map<CacheKey, Option<Seq<char>>>)
    requires
        cache_agrees(cache, db),
        ids_unique(db),
    ensures
        scan_cache(db, procs, cache).0 == fresh_scan(db, procs),
        cache_agrees(scan_cache(db, procs, cache).1, db),
        cache_agrees(after_scan(db, procs, cache), db),
    decreases procs.len(),
{
    if procs.len() > 0 {
        let d = procs.drop_last();
        law_cache_is_transparent(db, d, cache);
        let c = scan_cache(db, d, cache).1;
        let p = procs.last();
        let k = proc_key(p);
        if c.dom().contains(k) {
            assert(c[k] == fresh_id(db, p.path, p.args));
            lemma_first_matching(db, detection_variants(p.path), p.args);
            match fresh_index(db, p.path, p.args) {
                Some(j) => {
                    lemma_first_with_id(db, db[j].id);
                    let f = first_with_id(db, db[j].id);
                    assert(f == Some(j));
                },
                None => {},
            }
        }
    }
    let grown = scan_cache(db, procs, cache).1;
    assert(cache_agrees(grown.restrict(key_set(procs)), db));
}

/// Scanning the same processes twice against an unchanged database detects
/// the same games the second time as the first, whatever the cache held
/// before the first scan, as long as it agreed with the database.
pub proof fn law_rescan_is_stable(db: Seq<EntryView>, procs: Seq<ProcView>, cache: Map<CacheKey, Option<Seq<char>>>)
    requires
        cache_agrees(cache, db),
        ids_unique(db),
    ensures
        scan_cache(db, procs, after_scan(db, procs, cache)).0 == scan_cache(db, procs, cache).0,
{
    law_cache_is_transparent(db, procs, cache);
    law_cache_is_transparent(db, procs, after_scan(db, procs, cache));
}

/// The games and process ids of a detection result.
pub open spec fn detection_list(r: Seq<(&GameEntry, u32)>) -> Seq<(EntryView, u32)> {
    r.map_values(|x: (&GameEntry, u32)| (x.0@, x.1))
}

/// One cached matching result.
pub struct CacheEntry {
    pub path: String,
    pub args: Vec<String>,
    pub game_id: Option<String>,
}

/// A cached result as a key and a game id.
pub type CachedResult = (CacheKey, Option<Seq<char>>);

/// The key and cached id of an entry.
pub open spec fn entry_view(e: CacheEntry) -> CachedResult {
    ((e.path@, string_views(e.args@)), opt_view(e.game_id))
}

/// The key and cached id of every entry.
pub open spec fn entry_views(s: Seq<CacheEntry>) -> Seq<CachedResult> {
    s.map_values(|e: CacheEntry| entry_view(e))
}

/// No two results share a key.
pub open spec fn keys_distinct(s: Seq<CachedResult>) -> bool {
    forall|i: int, j: int| 0 <= i < j < s.len() ==> (#[trigger] s[i]).0 != (#[trigger] s[j]).0
}

/// The results as a map from key to cached game id.
pub open spec fn as_map(s: Seq<CachedResult>) -> Map<CacheKey, Option<Seq<char>>>
    decreases s.len(),
{
    if s.len() == 0 {
        Map::empty()
    } else {
        as_map(s.drop_last()).insert(s.last().0, s.last().1)
    }
}

/// Pushing onto a sequence adds exactly the pushed item to what it contains.
pub proof fn lemma_push_contains_key<A>(s: Seq<A>, x: A, y: A)
    ensures
        s.push(x).contains(y) == (s.contains(y) || x == y),
{
    if s.contains(y) {
        let j = choose|j: int| 0 <= j < s.len() && s[j] == y;
        assert(s.push(x)[j] == y);
    }
    if x == y {
        assert(s.push(x)[s.len() as int] == y);
    }
    if s.push(x).contains(y) {
        let j = choose|j: int| 0 <= j < s.push(x).len() && s.push(x)[j] == y;
        if j < s.len() {
            assert(s[j] == y);
        }
    }
}

/// The keys of the map are the keys of the results.
pub proof fn lemma_as_map_dom(s: Seq<CachedResult>, k: CacheKey)
    ensures
        as_map(s).dom().contains(k) == exists|i: int| 0 <= i < s.len() && (#[trigger] s[i]).0 == k,
    decreases s.len(),
{
    if s.len() > 0 {
        let d = s.drop_last();
        lemma_as_map_dom(d, k);
        if exists|i: int| 0 <= i < d.len() && (#[trigger] d[i]).0 == k {
            let i = choose|i: int| 0 <= i < d.len() && (#[trigger] d[i]).0 == k;
            assert(s[i] == d[i]);
        }
        if exists|i: int| 0 <= i < s.len() && (#[trigger] s[i]).0 == k {
            let i = choose|i: int| 0 <= i < s.len() && (#[trigger] s[i]).0 == k;
            if i < d.len() {
                assert(s[i] == d[i]);
            }
        }
        if s.last().0 == k {
            assert(s[s.len() - 1].0 == k);
        }
    }
}

/// With distinct keys, the map holds each result's id under its key.
pub proof fn lemma_as_map_value(s: Seq<CachedResult>, j: int)
    requires
        keys_distinct(s),
        0 <= j < s.len(),
    ensures
        as_map(s).dom().contains(s[j].0),
        as_map(s)[s[j].0] == s[j].1,
    decreases s.len(),
{
    let d = s.drop_last();
    if j < s.len() - 1 {
        assert(s[j] == d[j]);
        assert forall|a: int, b: int| 0 <= a < b < d.len() implies (#[trigger] d[a]).0 != (#[trigger] d[b]).0 by {
            assert(d[a] == s[a] && d[b] == s[b]);
        }
        lemma_as_map_value(d, j);
        assert(s[j].0 != s[s.len() - 1].0);
    }
}

/// The results whose key is in `keep`, in order.
pub open spec fn keep_only(s: Seq<CachedResult>, keep: Set<CacheKey>) -> Seq<CachedResult>
    decreases s.len(),
{
    if s.len() == 0 {
        s
    } else if keep.contains(s.last().0) {
        keep_only(s.drop_last(), keep).push(s.last())
    } else {
        keep_only(s.drop_last(), keep)
    }
}

/// Keeping results restricts the map to the kept keys and keeps keys
/// distinct.
pub proof fn lemma_keep_only(s: Seq<CachedResult>, keep: Set<CacheKey>)
    requires
        keys_distinct(s),
    ensures
        as_map(keep_only(s, keep)) == as_map(s).restrict(keep),
        keys_distinct(keep_only(s, keep)),
        forall|i: int| 0 <= i < keep_only(s, keep).len() ==> exists|j: int| 0 <= j < s.len() && #[trigger] keep_only(s, keep)[i] == s[j],
    decreases s.len(),
{
    if s.len() > 0 {
        let d = s.drop_last();
        assert forall|a: int, b: int| 0 <= a < b < d.len() implies (#[trigger] d[a]).0 != (#[trigger] d[b]).0 by {
            assert(d[a] == s[a] && d[b] == s[b]);
        }
        lemma_keep_only(d, keep);
        let ks = keep_only(s, keep);
        let kd = keep_only(d, keep);
        assert(s.drop_last() == d);
        if keep.contains(s.last().0) {
            assert(ks == kd.push(s.last()));
            assert(ks.drop_last() =~= kd);
            assert(as_map(ks) == as_map(kd).insert(s.last().0, s.last().1));
        } else {
            assert(ks == kd);
        }
        assert(as_map(s) == as_map(d).insert(s.last().0, s.last().1));
        assert(as_map(ks) =~= as_map(s).restrict(keep));
        assert forall|i: int| 0 <= i < ks.len() implies exists|j: int| 0 <= j < s.len() && #[trigger] ks[i] == s[j] by {
            if i < kd.len() {
                assert(ks[i] == kd[i]);
                let j = choose|j: int| 0 <= j < d.len() && #[trigger] kd[i] == d[j];
                assert(ks[i] == s[j]);
            } else {
                assert(ks[i] == s[s.len() - 1]);
            }
        }
        if keep.contains(s.last().0) {
            assert forall|a: int, b: int| 0 <= a < b < ks.len() implies (#[trigger] ks[a]).0 != (#[trigger] ks[b]).0 by {
                if b == ks.len() - 1 {
                    assert(ks[a] == kd[a]);
                    let j = choose|j: int| 0 <= j < d.len() && #[trigger] kd[a] == d[j];
                    assert(d[j] == s[j]);
                    assert(s[j].0 != s[s.len() - 1].0);
                } else {
                    assert(ks[a] == kd[a] && ks[b] == kd[b]);
                }
            }
        }
    } else {
        assert(as_map(s).restrict(keep) =~= Map::empty());
    }
}

/// The first game of the database with the id.
pub fn first_entry_with_id<'a>(db: &'a GameDatabase, id: &String) -> (r: Option<&'a GameEntry>)
    ensures
        match first_with_id(db.games(), id@) {
            Some(j) => r matches Some(g) && g@ == db.games()[j],
            None => r is None,
        },
{
    let ghost gv = db.games();
    let n = db.entries.len();
    for i in 0..n
        invariant
            n == db.entries@.len(),
            gv == db.games(),
            first_with_id(gv.take(i as int), id@) is None,
    {
        assert(gv.take(i + 1).drop_last() =~= gv.take(i as int));
        assert(gv.take(i + 1).last() == db.entries@[i as int]@);
        if str_eq(db.entries[i].id.as_str(), id.as_str()) {
            assert(first_with_id(gv.take(i + 1), id@) == Some(i as int));
            proof { first_with_id_prefix(gv, (i + 1) as int, id@); }
            return Some(&db.entries[i]);
        }
    }
    assert(gv.take(n as int) =~= gv);
    None
}

/// Once a prefix of `db` has a game with the id, `db` has the same first one.
pub proof fn first_with_id_prefix(db: Seq<EntryView>, k: int, id: Seq<char>)
    requires
        0 <= k <= db.len(),
        first_with_id(db.take(k), id) is Some,
    ensures
        first_with_id(db, id) == first_with_id(db.take(k), id),
    decreases db.len() - k,
{
    if k < db.len() {
        assert(db.take(k + 1).drop_last() =~= db.take(k));
        first_with_id_prefix(db, k + 1, id);
    } else {
        assert(db.take(k) =~= db);
    }
}

/// Cached results of matching processes against the database, keyed by
/// executable path and arguments; `None` records that nothing matched.
pub struct MatchingCache {
    entries: Vec<CacheEntry>,
}

/// The change signal read from the database's change channel at the start
/// of a scan.
pub enum ChangeSignal {
    /// A change notice arrived.
    Received(DatabaseChange),
    /// No notice was waiting.
    Empty,
    /// Notices were lost because the scanner fell behind.
    Lagged(u64),
    /// The sending side is gone.
    Closed,
}

/// The signal means cached results can no longer be trusted.
pub open spec fn invalidates(signal: ChangeSignal) -> bool {
    match signal {
        ChangeSignal::Received(DatabaseChange::Added) => true,
        ChangeSignal::Received(DatabaseChange::Touched(_)) => true,
        ChangeSignal::Lagged(_) => true,
        _ => false,
    }
}

impl MatchingCache {
    #[verifier::type_invariant]
    spec fn inv(self) -> bool {
        keys_distinct(entry_views(self.entries@))
    }

    /// The cached results by key.
    pub closed spec fn contents(&self) -> Map<CacheKey, Option<Seq<char>>> {
        as_map(entry_views(self.entries@))
    }

    /// The number of cached results.
    pub closed spec fn size(&self) -> nat {
        self.entries@.len()
    }


    /// An empty cache.
    pub fn new() -> (r: Self)
        ensures
            r.contents() == Map::<CacheKey, Option<Seq<char>>>::empty(),
            r.size() == 0,
    {
        let r = MatchingCache { entries: Vec::new() };
        assert(entry_views(r.entries@) =~= Seq::<CachedResult>::empty());
        r
    }

    /// The number of cached results.
    pub fn len(&self) -> (r: usize)
        ensures
            r == self.size(),
    {
        self.entries.len()
    }

    /// Drops every cached result.
    pub fn clear(&mut self)
        ensures
            final(self).contents() == Map::<CacheKey, Option<Seq<char>>>::empty(),
            final(self).size() == 0,
    {
        self.entries = Vec::new();
        assert(entry_views(self.entries@) =~= Seq::<CachedResult>::empty());
    }

    /// Drops the cached results when the signal says the database changed
    /// (or that notices were lost); keeps them otherwise.
    pub fn apply_change(&mut self, signal: &ChangeSignal)
        ensures
            invalidates(*signal) ==> final(self).contents() == Map::<CacheKey, Option<Seq<char>>>::empty(),
            !invalidates(*signal) ==> final(self).contents() == old(self).contents() && final(self).size() == old(self).size(),
    {
        match signal {
            ChangeSignal::Received(DatabaseChange::Added) => self.clear(),
            ChangeSignal::Received(DatabaseChange::Touched(_)) => self.clear(),
            ChangeSignal::Lagged(_) => self.clear(),
            _ => {},
        }
    }

    /// The position of the entry with the given key.
    fn find(&self, path: &String, args: &Vec<String>) -> (r: Option<usize>)
        ensures
            match r {
                Some(j) => j < self.entries@.len() && entry_views(self.entries@)[j as int].0 == (path@, string_views(args@)),
                None => !self.contents().dom().contains((path@, string_views(args@))),
            },
    {
        let ghost ev = entry_views(self.entries@);
        let n = self.entries.len();
        for i in 0..n
            invariant
                n == self.entries@.len(),
                ev == entry_views(self.entries@),
                forall|k: int| 0 <= k < i ==> (#[trigger] ev[k]).0 != (path@, string_views(args@)),
        {
            assert(ev[i as int] == entry_view(self.entries@[i as int]));
            if str_eq(self.entries[i].path.as_str(), path.as_str()) && strings_equal(&self.entries[i].args, args) {
                return Some(i);
            }
        }
        proof { lemma_as_map_dom(ev, (path@, string_views(args@))); }
        None
    }

    /// The games detected among the processes, in process order, as
    /// `scan_cache` describes them; the cache afterwards is `after_scan`.
    pub fn detect<'a>(&mut self, db: &'a GameDatabase, processes: &Vec<ProcessInfo>, paths: &PathProcessor) -> (r: Vec<(&'a GameEntry, u32)>)
        ensures
            detection_list(r@) == scan_cache(db.games(), proc_list(processes@), old(self).contents()).0,
            final(self).contents() == after_scan(db.games(), proc_list(processes@), old(self).contents()),
    {
        proof { use_type_invariant(&*self); }
        let ghost gv = db.games();
        let ghost pv = proc_list(processes@);
        let ghost start = old(self).contents();
        let mut entries: Vec<CacheEntry> = Vec::new();
        std::mem::swap(&mut entries, &mut self.entries);
        assert(entry_views(self.entries@) =~= Seq::<CachedResult>::empty());
        let matcher = Matcher;
        let mut result: Vec<(&'a GameEntry, u32)> = Vec::new();
        let mut seen: Vec<CacheEntry> = Vec::new();
        let n = processes.len();
        assert(pv.take(0) =~= Seq::<ProcView>::empty());
        assert(as_map(entry_views(seen@)).dom() =~= key_set(pv.take(0)));
        for i in 0..n
            invariant
                n == processes@.len(),
                gv == db.games(),
                pv == proc_list(processes@),
                keys_distinct(entry_views(entries@)),
                keys_distinct(entry_views(seen@)),
                as_map(entry_views(entries@)) == scan_cache(gv, pv.take(i as int), start).1,
                detection_list(result@) == scan_cache(gv, pv.take(i as int), start).0,
                as_map(entry_views(seen@)).dom() == key_set(pv.take(i as int)),
        {
            let p = &processes[i];
            let ghost pk = proc_key(p@);
            let ghost prev = pv.take(i as int);
            let ghost next = pv.take(i + 1);
            proof {
                assert(next.drop_last() =~= prev);
                assert(next.last() == p@);
                assert(keys_of(next) =~= keys_of(prev).push(pk));
                assert forall|k: CacheKey| #[trigger] key_set(next).contains(k) == (key_set(prev).contains(k) || k == pk) by {
                    lemma_push_contains_key(keys_of(prev), pk, k);
                }
                assert(key_set(next) =~= key_set(prev).insert(pk));
            }
            // remember the key of this scan
            let ghost sb = entry_views(seen@);
            let mut found_seen = false;
            let ns = seen.len();
            for x in 0..ns
                invariant
                    ns == seen@.len(),
                    sb == entry_views(seen@),
                    found_seen == exists|j: int| 0 <= j < x && (#[trigger] sb[j]).0 == pk,
                    pk == (p.executable_path@, string_views(p.arguments@)),
            {
                assert(sb[x as int] == entry_view(seen@[x as int]));
                if str_eq(seen[x].path.as_str(), p.executable_path.as_str()) && strings_equal(&seen[x].args, &p.arguments) {
                    found_seen = true;
                }
            }
            proof { lemma_as_map_dom(sb, pk); }
            if !found_seen {
                let key = CacheEntry { path: copy_string(&p.executable_path), args: copy_strings(&p.arguments), game_id: None };
                seen.push(key);
                proof {
                    let sv = entry_views(seen@);
                    assert(sv =~= sb.push(entry_view(key)));
                    assert(sv.drop_last() =~= sb);
                    assert forall|a: int, b: int| 0 <= a < b < sv.len() implies (#[trigger] sv[a]).0 != (#[trigger] sv[b]).0 by {
                        if b == sb.len() {
                            assert(sv[a] == sb[a]);
                        } else {
                            assert(sv[a] == sb[a] && sv[b] == sb[b]);
                        }
                    }
                    assert(as_map(sv).dom() =~= key_set(next));
                }
            } else {
                assert(as_map(entry_views(seen@)).dom() =~= key_set(next));
            }
            let ghost before = result@;
            let ghost ev = entry_views(entries@);
            // look the key up
            let mut hit: Option<usize> = None;
            let ne = entries.len();
            for x in 0..ne
                invariant
                    ne == entries@.len(),
                    ev == entry_views(entries@),
                    pk == (p.executable_path@, string_views(p.arguments@)),
                    match hit {
                        Some(j) => j < ne && ev[j as int].0 == pk,
                        None => forall|k: int| 0 <= k < x ==> (#[trigger] ev[k]).0 != pk,
                    },
            {
                assert(ev[x as int] == entry_view(entries@[x as int]));
                if hit.is_none() && str_eq(entries[x].path.as_str(), p.executable_path.as_str())
                    && strings_equal(&entries[x].args, &p.arguments) {
                    hit = Some(x);
                }
            }
            match hit {
                Some(j) => {
                    proof {
                        lemma_as_map_value(ev, j as int);
                        assert(ev[j as int] == entry_view(entries@[j as int]));
                    }
                    match &entries[j].game_id {
                        Some(id) => {
                            match first_entry_with_id(db, id) {
                                Some(g) => {
                                    result.push((g, p.pid));
                                    assert(detection_list(result@) =~= detection_list(before).push((g@, p.pid)));
                                },
                                None => {},
                            }
                        },
                        None => {},
                    }
                },
                None => {
                    proof { lemma_as_map_dom(ev, pk); }
                    let pinfo = paths.process_path(p.executable_path.as_str());
                    let m = matcher.find_match(db, &pinfo, &p.arguments);
                    let game_id = match m {
                        Some(g) => Some(copy_string(&g.id)),
                        None => None,
                    };
                    let entry = CacheEntry { path: copy_string(&p.executable_path), args: copy_strings(&p.arguments), game_id };
                    assert(entry_view(entry) == (pk, fresh_id(gv, p@.path, p@.args)));
                    entries.push(entry);
                    proof {
                        let nv = entry_views(entries@);
                        assert(nv =~= ev.push(entry_view(entry)));
                        assert(nv.drop_last() =~= ev);
                        assert forall|a: int, b: int| 0 <= a < b < nv.len() implies (#[trigger] nv[a]).0 != (#[trigger] nv[b]).0 by {
                            if b == ev.len() {
                                assert(nv[a] == ev[a]);
                            } else {
                                assert(nv[a] == ev[a] && nv[b] == ev[b]);
                            }
                        }
                    }
                    match m {
                        Some(g) => {
                            result.push((g, p.pid));
                            assert(detection_list(result@) =~= detection_list(before).push((g@, p.pid)));
                        },
                        None => {},
                    }
                },
            }
        }
        assert(pv.take(n as int) =~= pv);
        let ghost grown = as_map(entry_views(entries@));
        proof {
            lemma_as_map_len(entry_views(entries@));
            lemma_as_map_len(entry_views(seen@));
            assert(entry_views(entries@).len() == entries@.len());
            assert(entry_views(seen@).len() == seen@.len());
            assert forall|k: CacheKey| as_map(entry_views(seen@)).dom().contains(k) implies #[trigger] grown.dom().contains(k) by {
                lemma_scan_caches_keys(gv, pv, start, k);
            }
            vstd::set_lib::lemma_len_subset(as_map(entry_views(seen@)).dom(), grown.dom());
        }
        if seen.len() < entries.len() && entries.len() - seen.len() > seen.len() {
            entries = retain_keys(entries, &seen);
            proof {
                assert forall|k: CacheKey| (exists|j: int| 0 <= j < seen@.len() && (#[trigger] entry_views(seen@)[j]).0 == k)
                    == key_set(pv).contains(k) by {
                    lemma_as_map_dom(entry_views(seen@), k);
                }
                assert(Set::new(|k: CacheKey| exists|j: int| 0 <= j < seen@.len() && (#[trigger] entry_views(seen@)[j]).0 == k)
                    =~= key_set(pv));
            }
        }
        self.entries = entries;
        result
    }
}

/// A scan caches the key of every process it goes through.
proof fn lemma_scan_caches_keys(db: Seq<EntryView>, procs: Seq<ProcView>, cache: Map<CacheKey, Option<Seq<char>>>, k: CacheKey)
    requires
        key_set(procs).contains(k),
    ensures
        scan_cache(db, procs, cache).1.dom().contains(k),
    decreases procs.len(),
{
    let d = procs.drop_last();
    assert(keys_of(procs) =~= keys_of(d).push(proc_key(procs.last())));
    lemma_push_contains_key(keys_of(d), proc_key(procs.last()), k);
    if key_set(d).contains(k) {
        lemma_scan_caches_keys(db, d, cache, k);
    }
}

/// With distinct keys, the map has as many keys as there are results.
proof fn lemma_as_map_len(s: Seq<CachedResult>)
    requires
        keys_distinct(s),
    ensures
        as_map(s).dom().finite(),
        as_map(s).dom().len() == s.len(),
    decreases s.len(),
{
    if s.len() > 0 {
        let d = s.drop_last();
        assert forall|a: int, b: int| 0 <= a < b < d.len() implies (#[trigger] d[a]).0 != (#[trigger] d[b]).0 by {
            assert(d[a] == s[a] && d[b] == s[b]);
        }
        lemma_as_map_len(d);
        lemma_as_map_dom(d, s.last().0);
        if as_map(d).dom().contains(s.last().0) {
            let i = choose|i: int| 0 <= i < d.len() && (#[trigger] d[i]).0 == s.last().0;
            assert(d[i] == s[i]);
        }
    } else {
        assert(as_map(s).dom() =~= Set::<CacheKey>::empty());
    }
}

/// Keeps only the entries whose key is one of the keys of `keys`.
fn retain_keys(entries: Vec<CacheEntry>, keys: &Vec<CacheEntry>) -> (r: Vec<CacheEntry>)
    requires
        keys_distinct(entry_views(entries@)),
    ensures
        keys_distinct(entry_views(r@)),
        as_map(entry_views(r@)) == as_map(entry_views(entries@)).restrict(
            Set::new(|k: CacheKey| exists|j: int| 0 <= j < keys@.len() && (#[trigger] entry_views(keys@)[j]).0 == k),
        ),
{
    let ghost keep = Set::new(|k: CacheKey| exists|j: int| 0 <= j < keys@.len() && (#[trigger] entry_views(keys@)[j]).0 == k);
    let ghost orig = entry_views(entries@);
    let mut kept: Vec<CacheEntry> = Vec::new();
    let n = entries.len();
    for i in 0..n
        invariant
            n == entries@.len(),
            orig == entry_views(entries@),
            keep == Set::new(|k: CacheKey| exists|j: int| 0 <= j < keys@.len() && (#[trigger] entry_views(keys@)[j]).0 == k),
            entry_views(kept@) == keep_only(orig.take(i as int), keep),
    {
        assert(orig.take(i + 1).drop_last() =~= orig.take(i as int));
        assert(orig.take(i + 1).last() == entry_view(entries@[i as int]));
        let e = &entries[i];
        let mut wanted = false;
        let nk = keys.len();
        for x in 0..nk
            invariant
                nk == keys@.len(),
                wanted == exists|j: int| 0 <= j < x && (#[trigger] entry_views(keys@)[j]).0 == entry_view(*e).0,
        {
            assert(entry_views(keys@)[x as int] == entry_view(keys@[x as int]));
            if str_eq(keys[x].path.as_str(), e.path.as_str()) && strings_equal(&keys[x].args, &e.args) {
                wanted = true;
            }
        }
        assert(wanted == keep.contains(entry_view(*e).0));
        if wanted {
            let copy = CacheEntry { path: copy_string(&e.path), args: copy_strings(&e.args), game_id: copy_opt(&e.game_id) };
            let ghost kb = entry_views(kept@);
            kept.push(copy);
            assert(entry_views(kept@) =~= kb.push(entry_view(copy)));
        }
    }
    assert(orig.take(n as int) =~= orig);
    proof { lemma_keep_only(orig, keep); }
    kept
}

/// `tokio::sync::broadcast::Receiver`, carried as an opaque handle.
#[verifier::reject_recursive_types(T)]
#[verifier::external_type_specification]
#[verifier::external_body]
pub struct ExBroadcastReceiver<T>(tokio::sync::broadcast::Receiver<T>);

/// `tokio::sync::broadcast::Receiver::try_recv`, with its outcome told
/// apart: a waiting notice, none, notices lost, or the sender gone. Which of
/// them comes depends on the other tasks, so nothing is promised.
#[verifier::external_body]
fn try_receive_change(receiver: &mut tokio::sync::broadcast::Receiver<DatabaseChange>) -> ChangeSignal {
    match receiver.try_recv() {
        Ok(change) => ChangeSignal::Received(change),
        Err(tokio::sync::broadcast::error::TryRecvError::Empty) => ChangeSignal::Empty,
        Err(tokio::sync::broadcast::error::TryRecvError::Lagged(skipped)) => ChangeSignal::Lagged(skipped),
        Err(tokio::sync::broadcast::error::TryRecvError::Closed) => ChangeSignal::Closed,
    }
}

/// The cache a scan starts from after the change signal: empty when the
/// signal invalidates it, unchanged otherwise.
pub open spec fn cache_start(signal: ChangeSignal, cache: Map<CacheKey, Option<Seq<char>>>) -> Map<CacheKey, Option<Seq<char>>> {
    if invalidates(signal) {
        Map::empty()
    } else {
        cache
    }
}

/// The sightings that a list of detected games stands for.
pub open spec fn found_sightings(found: Seq<(EntryView, u32)>) -> Seq<SightingView> {
    Seq::new(found.len(), |i: int| SightingView { id: found[i].0.id, name: found[i].0.name, pid: found[i].1 })
}

/// Scans for running games every few seconds and keeps their activity
/// messages going.
pub struct ProcessDetector {
    scanner: ProcessScanner,
    path_processor: PathProcessor,
    activity_manager: ActivityManager,
    scan_interval: std::time::Duration,
    change_recv: tokio::sync::broadcast::Receiver<DatabaseChange>,
    matching_cache: MatchingCache,
}

impl ProcessDetector {
    /// The cached matching results.
    pub closed spec fn cache(&self) -> Map<CacheKey, Option<Seq<char>>> {
        self.matching_cache.contents()
    }

    /// The games currently running.
    pub closed spec fn running(&self) -> Seq<ActiveView> {
        self.activity_manager.running()
    }

    /// How often a scan runs.
    pub closed spec fn interval(&self) -> std::time::Duration {
        self.scan_interval
    }

    /// Every activity message handed to the message channel so far.
    pub closed spec fn sent_log(&self) -> Seq<ActivityMessage> {
        self.activity_manager.sent_log()
    }

    /// How often a scan runs.
    pub fn scan_interval(&self) -> (r: std::time::Duration)
        ensures
            r == self.interval(),
    {
        self.scan_interval
    }

    /// A detector with an empty cache and no running game, which learns of
    /// database changes on `change_recv` and sends activity messages to
    /// `message_sender`; it scans every five seconds.
    pub fn new(
        message_sender: tokio::sync::mpsc::UnboundedSender<ActivityMessage>,
        change_recv: tokio::sync::broadcast::Receiver<DatabaseChange>,
    ) -> (r: Self)
        ensures
            r.cache() == Map::<CacheKey, Option<Seq<char>>>::empty(),
            r.running() == Seq::<ActiveView>::empty(),
            r.sent_log() == Seq::<ActivityMessage>::empty(),
            r.interval() == seconds_duration(5),
    {
        ProcessDetector {
            scanner: ProcessScanner::new(),
            path_processor: PathProcessor::new(),
            activity_manager: ActivityManager::new(message_sender),
            scan_interval: duration_from_secs(5),
            change_recv,
            matching_cache: MatchingCache::new(),
        }
    }

    /// One scan, once the change signal has been read: the cache is dropped
    /// if the signal says so, the processes are matched (through the cache)
    /// against the database, the running games are updated with what was
    /// found, and the cache is trimmed.
    pub fn scan_with(&mut self, signal: ChangeSignal, database: &GameDatabase, processes: Vec<ProcessInfo>)
        ensures
            final(self).cache() == after_scan(
                database.games(),
                proc_list(processes@),
                cache_start(signal, old(self).cache()),
            ),
            exists|now: u64| final(self).running() == scan_step(
                old(self).running(),
                found_sightings(scan_cache(database.games(), proc_list(processes@), cache_start(signal, old(self).cache())).0),
                now,
            ).0 && realizes_all(
                final(self).sent_log().skip(old(self).sent_log().len() as int),
                scan_step(
                    old(self).running(),
                    found_sightings(scan_cache(database.games(), proc_list(processes@), cache_start(signal, old(self).cache())).0),
                    now,
                ).1,
            ),
            final(self).sent_log().len() >= old(self).sent_log().len(),
            final(self).sent_log().take(old(self).sent_log().len() as int) == old(self).sent_log(),
            final(self).interval() == old(self).interval(),
    {
        let ghost before = self.running();
        self.matching_cache.apply_change(&signal);
        let detected = self.matching_cache.detect(database, &processes, &self.path_processor);
        let ghost found = scan_cache(database.games(), proc_list(processes@), cache_start(signal, old(self).cache())).0;
        let ghost dv = detected@;
        proof {
            assert(detection_list(detected@) == found);
            assert(sighting_views(sightings_view(detected@)) =~= found_sightings(found)) by {
                assert forall|i: int| 0 <= i < found.len() implies
                    #[trigger] sighting_views(sightings_view(detected@))[i] == found_sightings(found)[i] by {
                    assert(detection_list(detected@)[i] == (detected@[i].0@, detected@[i].1));
                }
            }
        }
        self.activity_manager.update_detected_games(detected);
        proof {
            let sv = sighting_views(sightings_view(dv));
            let now = choose|now: u64| self.activity_manager.running() == scan_step(before, sv, now).0
                && realizes_all(self.activity_manager.sent_log().skip(old(self).sent_log().len() as int), scan_step(before, sv, now).1);
            assert(self.running() == scan_step(before, found_sightings(found), now).0);
        }
    }

    /// One scan: reads the change signal, then does what `scan_with` does.
    pub fn scan_cycle(&mut self, database: &GameDatabase, processes: Vec<ProcessInfo>)
        ensures
            exists|signal: ChangeSignal| #![trigger cache_start(signal, old(self).cache())]
                final(self).cache() == after_scan(
                    database.games(),
                    proc_list(processes@),
                    cache_start(signal, old(self).cache()),
                ) && exists|now: u64| final(self).running() == scan_step(
                    old(self).running(),
                    found_sightings(scan_cache(database.games(), proc_list(processes@), cache_start(signal, old(self).cache())).0),
                    now,
                ).0 && realizes_all(
                    final(self).sent_log().skip(old(self).sent_log().len() as int),
                    scan_step(
                        old(self).running(),
                        found_sightings(scan_cache(database.games(), proc_list(processes@), cache_start(signal, old(self).cache())).0),
                        now,
                    ).1,
                ),
            final(self).sent_log().len() >= old(self).sent_log().len(),
            final(self).sent_log().take(old(self).sent_log().len() as int) == old(self).sent_log(),
            final(self).interval() == old(self).interval(),
    {
        let signal = try_receive_change(&mut self.change_recv);
        let ghost sig = signal;
        let ghost pv = proc_list(processes@);
        self.scan_with(signal, database, processes);
        proof {
            let found = found_sightings(scan_cache(database.games(), pv, cache_start(sig, old(self).cache())).0);
            let now = choose|now: u64| self.running() == scan_step(old(self).running(), found, now).0
                && realizes_all(self.sent_log().skip(old(self).sent_log().len() as int), scan_step(old(self).running(), found, now).1);
            assert(self.running() == scan_step(old(self).running(), found, now).0);
            assert(self.cache() == after_scan(database.games(), pv, cache_start(sig, old(self).cache())));
        }
    }
}

} // verus!

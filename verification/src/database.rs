//! The game database fetched from Discord and what changed between two
//! versions of it.
pub mod http_client;

use vstd::prelude::*;
use crate::database::http_client::HttpConfig;
use crate::outside::broadcast_send;
use crate::text::{copy_string, str_eq, string_views};

verus! {

/// How often the database is refreshed, where it is downloaded from, and
/// the folder that keeps it.
pub struct DatabaseConfig {
    pub http: HttpConfig,
    pub update_interval: std::time::Duration,
    pub db_path: String,
}

/// The platform an executable is meant for.
#[derive(Clone, Copy, PartialEq, Eq, Structural, Debug, Hash)]
pub enum OperatingSystem {
    Linux,
    Windows,
    MacOS,
}

/// One game of the database.
pub struct GameEntry {
    pub id: String,
    pub name: String,
    pub executables: Vec<ExecutableEntry>,
}

/// One executable of a game.
pub struct ExecutableEntry {
    pub name: String,
    pub os: OperatingSystem,
    pub is_launcher: bool,
    pub arguments: Option<String>,
}

/// What changed between two versions of the database.
#[derive(Clone, Debug)]
pub enum DatabaseChange {
    Added,
    Touched(Vec<String>),
    Unchanged,
}

/// The games, and the entity tag they were served with.
pub struct GameDatabase {
    pub entries: Vec<GameEntry>,
    pub etag: String,
}

/// The plain content of an executable entry.
pub struct ExeView {
    pub name: Seq<char>,
    pub os: OperatingSystem,
    pub is_launcher: bool,
    pub arguments: Option<Seq<char>>,
}

/// The plain content of a game entry.
pub struct EntryView {
    pub id: Seq<char>,
    pub name: Seq<char>,
    pub executables: Seq<ExeView>,
}

/// The plain content of a database change.
pub enum ChangeView {
    Added,
    Touched(Seq<Seq<char>>),
    Unchanged,
}

/// The characters of an optional string.
pub open spec fn opt_view(o: Option<String>) -> Option<Seq<char>> {
    match o {
        Some(s) => Some(s@),
        None => None,
    }
}

impl View for ExecutableEntry {
    type V = ExeView;

    open spec fn view(&self) -> ExeView {
        ExeView { name: self.name@, os: self.os, is_launcher: self.is_launcher, arguments: opt_view(self.arguments) }
    }
}

/// The views of a list of executables.
pub open spec fn exe_list(v: Seq<ExecutableEntry>) -> Seq<ExeView> {
    v.map_values(|e: ExecutableEntry| e@)
}

impl View for GameEntry {
    type V = EntryView;

    open spec fn view(&self) -> EntryView {
        EntryView { id: self.id@, name: self.name@, executables: exe_list(self.executables@) }
    }
}

/// The views of a list of games.
pub open spec fn entry_list(v: Seq<GameEntry>) -> Seq<EntryView> {
    v.map_values(|g: GameEntry| g@)
}

impl View for DatabaseChange {
    type V = ChangeView;

    open spec fn view(&self) -> ChangeView {
        match self {
            DatabaseChange::Added => ChangeView::Added,
            DatabaseChange::Touched(ids) => ChangeView::Touched(string_views(ids@)),
            DatabaseChange::Unchanged => ChangeView::Unchanged,
        }
    }
}

/// Some game of `db` has the id.
pub open spec fn has_id(db: Seq<EntryView>, id: Seq<char>) -> bool {
    exists|i: int| 0 <= i < db.len() && #[trigger] db[i].id == id
}

/// The distinct ids of `db`, in order of first appearance.
pub open spec fn distinct_ids(db: Seq<EntryView>) -> Seq<Seq<char>>
    decreases db.len(),
{
    if db.len() == 0 {
        Seq::<Seq<char>>::empty()
    } else {
        let prev = distinct_ids(db.drop_last());
        if has_id(db.drop_last(), db.last().id) {
            prev
        } else {
            prev.push(db.last().id)
        }
    }
}

/// The last game of `db` with the id (a lookup table built from the list
/// keeps the last of several games with one id).
pub open spec fn entry_for(db: Seq<EntryView>, id: Seq<char>) -> EntryView
    decreases db.len(),
{
    if db.len() == 0 {
        arbitrary()
    } else if db.last().id == id {
        db.last()
    } else {
        entry_for(db.drop_last(), id)
    }
}

/// The two lists hold the same executables, regardless of order and
/// repetition.
pub open spec fn same_executables(a: Seq<ExeView>, b: Seq<ExeView>) -> bool {
    (forall|i: int| 0 <= i < a.len() ==> #[trigger] b.contains(a[i]))
        && (forall|i: int| 0 <= i < b.len() ==> #[trigger] a.contains(b[i]))
}

/// The ids of `old` that `new` no longer has, in order of first appearance
/// in `old`.
pub open spec fn removed_ids(ids: Seq<Seq<char>>, new: Seq<EntryView>) -> Seq<Seq<char>>
    decreases ids.len(),
{
    if ids.len() == 0 {
        ids
    } else if has_id(new, ids.last()) {
        removed_ids(ids.drop_last(), new)
    } else {
        removed_ids(ids.drop_last(), new).push(ids.last())
    }
}

/// The ids of `new`, among `ids`, whose game (the last one with the id)
/// has other executables than in `old`.
pub open spec fn modified_ids(ids: Seq<Seq<char>>, old: Seq<EntryView>, new: Seq<EntryView>) -> Seq<Seq<char>>
    decreases ids.len(),
{
    if ids.len() == 0 {
        ids
    } else if has_id(old, ids.last()) && !same_executables(
        entry_for(new, ids.last()).executables,
        entry_for(old, ids.last()).executables,
    ) {
        modified_ids(ids.drop_last(), old, new).push(ids.last())
    } else {
        modified_ids(ids.drop_last(), old, new)
    }
}

/// What changed from `old` to `new`: `Added` when `new` has a game id that
/// `old` lacks; otherwise the ids of removed games followed by those whose
/// executables changed, or `Unchanged` when there are none.
pub open spec fn diff_of(old: Seq<EntryView>, new: Seq<EntryView>) -> ChangeView {
    if exists|i: int| 0 <= i < new.len() && !has_id(old, #[trigger] new[i].id) {
        ChangeView::Added
    } else {
        let touched = removed_ids(distinct_ids(old), new) + modified_ids(distinct_ids(new), old, new);
        if touched.len() == 0 {
            ChangeView::Unchanged
        } else {
            ChangeView::Touched(touched)
        }
    }
}

proof fn lemma_distinct_ids_present(db: Seq<EntryView>)
    ensures
        forall|k: int| 0 <= k < distinct_ids(db).len() ==> has_id(db, #[trigger] distinct_ids(db)[k]),
    decreases db.len(),
{
    if db.len() > 0 {
        let d = db.drop_last();
        lemma_distinct_ids_present(d);
        assert forall|k: int| 0 <= k < distinct_ids(db).len() implies has_id(db, #[trigger] distinct_ids(db)[k]) by {
            if k < distinct_ids(d).len() {
                let x = distinct_ids(d)[k];
                assert(distinct_ids(db)[k] == x);
                assert(has_id(d, x));
                let j = choose|j: int| 0 <= j < d.len() && #[trigger] d[j].id == x;
                assert(db[j].id == x);
            } else {
                assert(distinct_ids(db)[k] == db.last().id);
                assert(db[db.len() - 1].id == db.last().id);
            }
        }
    }
}

proof fn lemma_nothing_removed(ids: Seq<Seq<char>>, db: Seq<EntryView>)
    requires
        forall|k: int| 0 <= k < ids.len() ==> has_id(db, #[trigger] ids[k]),
    ensures
        removed_ids(ids, db).len() == 0,
    decreases ids.len(),
{
    if ids.len() > 0 {
        let d = ids.drop_last();
        assert forall|k: int| 0 <= k < d.len() implies has_id(db, #[trigger] d[k]) by {
            assert(d[k] == ids[k]);
        }
        lemma_nothing_removed(d, db);
        assert(has_id(db, ids[ids.len() - 1]));
    }
}

proof fn lemma_nothing_modified(ids: Seq<Seq<char>>, db: Seq<EntryView>)
    ensures
        modified_ids(ids, db, db).len() == 0,
    decreases ids.len(),
{
    if ids.len() > 0 {
        lemma_nothing_modified(ids.drop_last(), db);
        let e = entry_for(db, ids.last()).executables;
        assert forall|i: int| 0 <= i < e.len() implies #[trigger] e.contains(e[i]) by {}
        assert(same_executables(e, e));
    }
}

/// A database compared with itself has not changed.
pub proof fn law_self_diff_is_unchanged(db: Seq<EntryView>)
    ensures
        diff_of(db, db) == ChangeView::Unchanged,
{
    assert forall|i: int| 0 <= i < db.len() implies has_id(db, #[trigger] db[i].id) by {}
    lemma_distinct_ids_present(db);
    lemma_nothing_removed(distinct_ids(db), db);
    lemma_nothing_modified(distinct_ids(db), db);
    assert((removed_ids(distinct_ids(db), db) + modified_ids(distinct_ids(db), db, db)).len() == 0);
}

/// Two executable lists count as the same exactly when they hold the same
/// set of executables: an executable that only one of them has, lost or
/// gained, makes them differ.
pub proof fn law_same_executables_is_set_equality(a: Seq<ExeView>, b: Seq<ExeView>)
    ensures
        same_executables(a, b) <==> a.to_set() == b.to_set(),
{
    if same_executables(a, b) {
        assert forall|x: ExeView| a.to_set().contains(x) <==> b.to_set().contains(x) by {
            if a.contains(x) {
                let i = choose|i: int| 0 <= i < a.len() && a[i] == x;
                assert(b.contains(a[i]));
            }
            if b.contains(x) {
                let i = choose|i: int| 0 <= i < b.len() && b[i] == x;
                assert(a.contains(b[i]));
            }
        }
        assert(a.to_set() =~= b.to_set());
    }
    if a.to_set() == b.to_set() {
        assert forall|i: int| 0 <= i < a.len() implies #[trigger] b.contains(a[i]) by {
            assert(a.contains(a[i]));
            assert(a.to_set().contains(a[i]));
            assert(b.to_set().contains(a[i]));
        }
        assert forall|i: int| 0 <= i < b.len() implies #[trigger] a.contains(b[i]) by {
            assert(b.contains(b[i]));
            assert(b.to_set().contains(b[i]));
            assert(a.to_set().contains(b[i]));
        }
    }
}

proof fn lemma_distinct_ids_complete(db: Seq<EntryView>, id: Seq<char>)
    requires
        has_id(db, id),
    ensures
        distinct_ids(db).contains(id),
    decreases db.len(),
{
    let d = db.drop_last();
    if has_id(d, id) {
        lemma_distinct_ids_complete(d, id);
        let k = choose|k: int| 0 <= k < distinct_ids(d).len() && distinct_ids(d)[k] == id;
        if has_id(d, db.last().id) {
            assert(distinct_ids(db)[k] == id);
        } else {
            assert(distinct_ids(db)[k] == id);
        }
    } else {
        let j = choose|j: int| 0 <= j < db.len() && #[trigger] db[j].id == id;
        if j < d.len() {
            assert(d[j].id == id);
        }
        assert(db.last().id == id);
        assert(distinct_ids(db) == distinct_ids(d).push(id));
        assert(distinct_ids(db)[distinct_ids(d).len() as int] == id);
    }
}

proof fn lemma_modified_has(ids: Seq<Seq<char>>, old: Seq<EntryView>, new: Seq<EntryView>, id: Seq<char>)
    requires
        ids.contains(id),
        has_id(old, id),
        !same_executables(entry_for(new, id).executables, entry_for(old, id).executables),
    ensures
        modified_ids(ids, old, new).contains(id),
    decreases ids.len(),
{
    let d = ids.drop_last();
    if ids.last() == id {
        let m = modified_ids(d, old, new);
        assert(modified_ids(ids, old, new) == m.push(id));
        assert(m.push(id)[m.len() as int] == id);
    } else {
        let k = choose|k: int| 0 <= k < ids.len() && ids[k] == id;
        assert(k != ids.len() - 1);
        assert(d[k] == id);
        lemma_modified_has(d, old, new, id);
        let m = modified_ids(d, old, new);
        let j = choose|j: int| 0 <= j < m.len() && m[j] == id;
        if modified_ids(ids, old, new) != m {
            assert(modified_ids(ids, old, new) == m.push(ids.last()));
            assert(m.push(ids.last())[j] == id);
        }
    }
}

/// A game kept in both versions whose executables changed, one lost or one
/// gained, is reported: the change is `Added` (some game id is new) or
/// `Touched` with the game's id among those touched.
pub proof fn law_changed_executables_are_touched(old: Seq<EntryView>, new: Seq<EntryView>, id: Seq<char>, e: ExeView)
    requires
        has_id(old, id),
        has_id(new, id),
        entry_for(old, id).executables.contains(e) != entry_for(new, id).executables.contains(e),
    ensures
        diff_of(old, new) is Added || (diff_of(old, new) matches ChangeView::Touched(t) && t.contains(id)),
{
    let ne = entry_for(new, id).executables;
    let oe = entry_for(old, id).executables;
    if oe.contains(e) {
        let i = choose|i: int| 0 <= i < oe.len() && oe[i] == e;
        assert(!ne.contains(oe[i]));
    } else {
        let i = choose|i: int| 0 <= i < ne.len() && ne[i] == e;
        assert(!oe.contains(ne[i]));
    }
    assert(!same_executables(ne, oe));
    if !(exists|i: int| 0 <= i < new.len() && !has_id(old, #[trigger] new[i].id)) {
        lemma_distinct_ids_complete(new, id);
        lemma_modified_has(distinct_ids(new), old, new, id);
        let r = removed_ids(distinct_ids(old), new);
        let m = modified_ids(distinct_ids(new), old, new);
        let j = choose|j: int| 0 <= j < m.len() && m[j] == id;
        assert((r + m)[r.len() + j] == id);
        assert((r + m).contains(id));
    }
}

impl ExecutableEntry {
    /// Whether two executable entries are equal in every field.
    pub fn same_as(&self, other: &ExecutableEntry) -> (r: bool)
        ensures
            r == (self@ == other@),
    {
        if !str_eq(self.name.as_str(), other.name.as_str()) || self.os != other.os
            || self.is_launcher != other.is_launcher {
            return false;
        }
        match (&self.arguments, &other.arguments) {
            (None, None) => true,
            (Some(a), Some(b)) => str_eq(a.as_str(), b.as_str()),
            _ => false,
        }
    }
}

/// Whether `list` holds an executable equal to `e`.
fn holds_executable(list: &Vec<ExecutableEntry>, e: &ExecutableEntry) -> (r: bool)
    ensures
        r == exe_list(list@).contains(e@),
{
    let n = list.len();
    for i in 0..n
        invariant
            n == list@.len(),
            forall|k: int| 0 <= k < i ==> list@[k]@ != e@,
    {
        if list[i].same_as(e) {
            assert(exe_list(list@)[i as int] == e@);
            return true;
        }
    }
    assert forall|k: int| 0 <= k < exe_list(list@).len() implies exe_list(list@)[k] != e@ by {
        assert(list@[k]@ != e@);
    }
    false
}

/// Whether every executable of `a` is in `b`.
fn executables_within(a: &Vec<ExecutableEntry>, b: &Vec<ExecutableEntry>) -> (r: bool)
    ensures
        r == (forall|i: int| 0 <= i < exe_list(a@).len() ==> #[trigger] exe_list(b@).contains(exe_list(a@)[i])),
{
    let n = a.len();
    for i in 0..n
        invariant
            n == a@.len(),
            forall|k: int| 0 <= k < i ==> #[trigger] exe_list(b@).contains(exe_list(a@)[k]),
    {
        if !holds_executable(b, &a[i]) {
            assert(!exe_list(b@).contains(exe_list(a@)[i as int]));
            return false;
        }
    }
    true
}

/// Decides `same_executables`.
pub fn same_executable_sets(a: &Vec<ExecutableEntry>, b: &Vec<ExecutableEntry>) -> (r: bool)
    ensures
        r == same_executables(exe_list(a@), exe_list(b@)),
{
    executables_within(a, b) && executables_within(b, a)
}

/// Whether some game of `db` has the id.
fn db_has_id(db: &Vec<GameEntry>, id: &String) -> (r: bool)
    ensures
        r == has_id(entry_list(db@), id@),
{
    let n = db.len();
    for i in 0..n
        invariant
            n == db@.len(),
            forall|k: int| 0 <= k < i ==> db@[k]@.id != id@,
    {
        if str_eq(db[i].id.as_str(), id.as_str()) {
            assert(entry_list(db@)[i as int].id == id@);
            return true;
        }
    }
    assert forall|k: int| 0 <= k < entry_list(db@).len() implies entry_list(db@)[k].id != id@ by {
        assert(db@[k]@.id != id@);
    }
    false
}

/// The position of the last game of `db` with the id.
fn last_with_id(db: &Vec<GameEntry>, id: &String) -> (r: usize)
    requires
        has_id(entry_list(db@), id@),
    ensures
        r < db@.len(),
        db@[r as int]@ == entry_for(entry_list(db@), id@),
{
    let ghost v = entry_list(db@);
    let mut i = db.len();
    assert(v.take(i as int) =~= v);
    while i > 0
        invariant
            i <= db@.len(),
            v == entry_list(db@),
            has_id(v.take(i as int), id@),
            entry_for(v.take(i as int), id@) == entry_for(v, id@),
        decreases i,
    {
        assert(v.take(i as int).drop_last() =~= v.take(i - 1));
        assert(v.take(i as int).last() == db@[i - 1]@);
        if str_eq(db[i - 1].id.as_str(), id.as_str()) {
            return i - 1;
        }
        proof {
            let w = choose|j: int| 0 <= j < v.take(i as int).len() && #[trigger] v.take(i as int)[j].id == id@;
            assert(v.take(i - 1)[w] == v.take(i as int)[w]);
        }
        i = i - 1;
    }
    assert(false);
    0
}

impl GameDatabase {
    /// A database holding the games, served with the entity tag.
    pub fn new(entries: Vec<GameEntry>, etag: String) -> (r: Self)
        ensures
            r.games() == entry_list(entries@),
            r.etag() == etag@,
    {
        GameDatabase { entries, etag }
    }

    /// The entity tag the database was served with.
    pub open spec fn etag(&self) -> Seq<char> {
        self.etag@
    }

    /// The entity tag the database was served with.
    pub fn get_etag(&self) -> (r: &str)
        ensures
            r@ == self.etag(),
    {
        self.etag.as_str()
    }

    /// The games, as plain values.
    pub open spec fn games(&self) -> Seq<EntryView> {
        entry_list(self.entries@)
    }
}

/// A copy of an optional string.
pub fn copy_opt(o: &Option<String>) -> (r: Option<String>)
    ensures
        opt_view(r) == opt_view(*o),
{
    match o {
        Some(s) => Some(copy_string(s)),
        None => None,
    }
}

impl ExecutableEntry {
    /// A copy of this executable entry.
    pub fn duplicate(&self) -> (r: Self)
        ensures
            r@ == self@,
    {
        ExecutableEntry {
            name: copy_string(&self.name),
            os: self.os,
            is_launcher: self.is_launcher,
            arguments: copy_opt(&self.arguments),
        }
    }
}

impl GameEntry {
    /// A copy of this game entry.
    pub fn duplicate(&self) -> (r: Self)
        ensures
            r@ == self@,
    {
        let mut exes: Vec<ExecutableEntry> = Vec::new();
        let n = self.executables.len();
        for i in 0..n
            invariant
                n == self.executables@.len(),
                exe_list(exes@) == exe_list(self.executables@).take(i as int),
        {
            let e = self.executables[i].duplicate();
            let ghost before = exes@;
            exes.push(e);
            assert(exe_list(exes@) =~= exe_list(before).push(e@));
            assert(exe_list(self.executables@).take(i + 1) =~= exe_list(self.executables@).take(i as int).push(
                self.executables@[i as int]@,
            ));
        }
        assert(exe_list(self.executables@).take(n as int) =~= exe_list(self.executables@));
        GameEntry { id: copy_string(&self.id), name: copy_string(&self.name), executables: exes }
    }
}

impl GameDatabase {
    /// A copy of the database.
    pub fn duplicate(&self) -> (r: Self)
        ensures
            r.games() == self.games(),
            r.etag() == self.etag(),
    {
        let mut entries: Vec<GameEntry> = Vec::new();
        let n = self.entries.len();
        for i in 0..n
            invariant
                n == self.entries@.len(),
                entry_list(entries@) == entry_list(self.entries@).take(i as int),
        {
            let g = self.entries[i].duplicate();
            let ghost before = entries@;
            entries.push(g);
            assert(entry_list(entries@) =~= entry_list(before).push(g@));
            assert(entry_list(self.entries@).take(i + 1) =~= entry_list(self.entries@).take(i as int).push(
                self.entries@[i as int]@,
            ));
        }
        assert(entry_list(self.entries@).take(n as int) =~= entry_list(self.entries@));
        GameDatabase { entries, etag: copy_string(&self.etag) }
    }
}

/// What the download brought back.
pub enum FetchResponse {
    /// The server answered that the database did not change since the tag
    /// that was sent.
    NotModified,
    /// A new version of the database, with the tag it was served with.
    Fresh { entries: Vec<GameEntry>, etag: Option<String> },
}

/// Why a fetch could not produce a database.
#[derive(Debug)]
pub enum FetchError {
    /// The server answered "not modified" though no stored copy exists.
    NotModifiedWithoutStore,
}

/// Fetches the game database and announces what changed.
pub struct GameDBFetcher(pub tokio::sync::broadcast::Sender<DatabaseChange>);

impl GameDBFetcher {
    /// What changed from `old_db` to `new_db` (see `diff_of`).
    pub fn diff(old_db: &GameDatabase, new_db: &GameDatabase) -> (r: DatabaseChange)
        ensures
            r@ == diff_of(old_db.games(), new_db.games()),
    {
        let old = &old_db.entries;
        let new = &new_db.entries;
        let ghost ov = old_db.games();
        let ghost nv = new_db.games();
        // a game id that was not there before
        let n = new.len();
        for i in 0..n
            invariant
                n == new@.len(),
                ov == entry_list(old@),
                nv == entry_list(new@),
                ov == old_db.games(),
                nv == new_db.games(),
                forall|k: int| 0 <= k < i ==> has_id(ov, #[trigger] nv[k].id),
        {
            if !db_has_id(old, &new[i].id) {
                assert(!has_id(ov, nv[i as int].id));
                assert(exists|k: int| 0 <= k < nv.len() && !has_id(ov, #[trigger] nv[k].id));
                return DatabaseChange::Added;
            }
        }
        let mut touched: Vec<String> = Vec::new();
        let mut seen: Vec<String> = Vec::new();
        // removed games, in order of first appearance
        let m = old.len();
        for i in 0..m
            invariant
                m == old@.len(),
                ov == entry_list(old@),
                nv == entry_list(new@),
                string_views(seen@) == distinct_ids(ov.take(i as int)),
                string_views(touched@) == removed_ids(distinct_ids(ov.take(i as int)), nv),
        {
            assert(ov.take(i + 1).drop_last() =~= ov.take(i as int));
            assert(ov.take(i + 1).last() == old@[i as int]@);
            let id = &old[i].id;
            let seen_before = seen_contains(&seen, id);
            proof { lemma_has_id_distinct(ov.take(i as int), id@); }
            if seen_before {
                assert(distinct_ids(ov.take(i + 1)) == distinct_ids(ov.take(i as int)));
            } else {
                assert(distinct_ids(ov.take(i + 1)) == distinct_ids(ov.take(i as int)).push(id@));
                assert(distinct_ids(ov.take(i + 1)).drop_last() =~= distinct_ids(ov.take(i as int)));
                let c = copy_string(id);
                let ghost sb = seen@;
                seen.push(c);
                assert(string_views(seen@) =~= string_views(sb).push(id@));
                if !db_has_id(new, id) {
                    let c2 = copy_string(id);
                    let ghost tb = touched@;
                    touched.push(c2);
                    assert(string_views(touched@) =~= string_views(tb).push(id@));
                }
            }
        }
        assert(ov.take(m as int) =~= ov);
        // modified games, in order of first appearance in the new version
        let mut seen_new: Vec<String> = Vec::new();
        let ghost removed = string_views(touched@);
        for i in 0..n
            invariant
                n == new@.len(),
                ov == entry_list(old@),
                nv == entry_list(new@),
                string_views(seen_new@) == distinct_ids(nv.take(i as int)),
                string_views(touched@) == removed + modified_ids(distinct_ids(nv.take(i as int)), ov, nv),
        {
            assert(nv.take(i + 1).drop_last() =~= nv.take(i as int));
            assert(nv.take(i + 1).last() == new@[i as int]@);
            let id = &new[i].id;
            let seen_before = seen_contains(&seen_new, id);
            proof { lemma_has_id_distinct(nv.take(i as int), id@); }
            assert(nv[i as int].id == id@);
            assert(has_id(nv, id@));
            if seen_before {
                assert(distinct_ids(nv.take(i + 1)) == distinct_ids(nv.take(i as int)));
            } else {
                assert(distinct_ids(nv.take(i + 1)) == distinct_ids(nv.take(i as int)).push(id@));
                assert(distinct_ids(nv.take(i + 1)).drop_last() =~= distinct_ids(nv.take(i as int)));
                let c = copy_string(id);
                let ghost sb = seen_new@;
                seen_new.push(c);
                assert(string_views(seen_new@) =~= string_views(sb).push(id@));
                if db_has_id(old, id) {
                    let a = last_with_id(new, id);
                    let b = last_with_id(old, id);
                    if !same_executable_sets(&new[a].executables, &old[b].executables) {
                        let c2 = copy_string(id);
                        let ghost tb = touched@;
                        touched.push(c2);
                        assert(string_views(touched@) =~= string_views(tb).push(id@));
                    }
                }
            }
        }
        assert(nv.take(n as int) =~= nv);
        if touched.len() == 0 {
            DatabaseChange::Unchanged
        } else {
            DatabaseChange::Touched(touched)
        }
    }
}

impl GameDBFetcher {
    /// The change to announce when `new_db` replaces the stored database:
    /// everything counts as added when nothing was stored.
    pub fn change_against(store: Option<&GameDatabase>, new_db: &GameDatabase) -> (r: DatabaseChange)
        ensures
            match store {
                Some(old) => r@ == diff_of(old.games(), new_db.games()),
                None => r@ == ChangeView::Added,
            },
    {
        match store {
            Some(old) => GameDBFetcher::diff(old, new_db),
            None => DatabaseChange::Added,
        }
    }

    /// Turns the download's answer into the database to keep: on "not
    /// modified" the stored copy (an error when there is none); otherwise the
    /// new games with their tag (empty when the server sent none), after
    /// announcing what changed on the channel.
    pub fn complete_fetch(&self, store: Option<&GameDatabase>, response: FetchResponse) -> (r: Result<GameDatabase, FetchError>)
        ensures
            match response {
                FetchResponse::NotModified => match store {
                    Some(old) => r matches Ok(db) && db.games() == old.games() && db.etag() == old.etag(),
                    None => r matches Err(FetchError::NotModifiedWithoutStore),
                },
                FetchResponse::Fresh { entries, etag } => r matches Ok(db) && db.games() == entry_list(entries@)
                    && db.etag() == match etag {
                        Some(t) => t@,
                        None => Seq::<char>::empty(),
                    },
            },
    {
        match response {
            FetchResponse::NotModified => match store {
                Some(old) => Ok(old.duplicate()),
                None => Err(FetchError::NotModifiedWithoutStore),
            },
            FetchResponse::Fresh { entries, etag } => {
                let tag = match etag {
                    Some(t) => t,
                    None => String::new(),
                };
                let new_db = GameDatabase::new(entries, tag);
                let change = GameDBFetcher::change_against(store, &new_db);
                let _ = broadcast_send(&self.0, change);
                Ok(new_db)
            },
        }
    }
}

/// Whether `seen` holds a string equal to `id`.
fn seen_contains(seen: &Vec<String>, id: &String) -> (r: bool)
    ensures
        r == string_views(seen@).contains(id@),
{
    let n = seen.len();
    for i in 0..n
        invariant
            n == seen@.len(),
            forall|k: int| 0 <= k < i ==> seen@[k]@ != id@,
    {
        if str_eq(seen[i].as_str(), id.as_str()) {
            assert(string_views(seen@)[i as int] == id@);
            return true;
        }
    }
    assert forall|k: int| 0 <= k < string_views(seen@).len() implies string_views(seen@)[k] != id@ by {
        assert(seen@[k]@ != id@);
    }
    false
}

/// A game of `db` has the id exactly when one before the last has it or
/// the last one has it.
pub proof fn lemma_has_id_last(db: Seq<EntryView>, id: Seq<char>)
    requires
        db.len() > 0,
    ensures
        has_id(db, id) == (has_id(db.drop_last(), id) || db.last().id == id),
{
    let d = db.drop_last();
    if has_id(d, id) {
        let j = choose|j: int| 0 <= j < d.len() && #[trigger] d[j].id == id;
        assert(db[j].id == id);
    }
    if db.last().id == id {
        assert(db[db.len() - 1].id == id);
    }
    if has_id(db, id) {
        let j = choose|j: int| 0 <= j < db.len() && #[trigger] db[j].id == id;
        if j < d.len() {
            assert(d[j].id == id);
        }
    }
}

/// Pushing onto a sequence adds exactly the pushed item to what it contains.
pub proof fn lemma_push_contains(s: Seq<Seq<char>>, x: Seq<char>, y: Seq<char>)
    ensures
        s.push(x).contains(y) == (s.contains(y) || x == y),
{
    if s.contains(y) {
        let j = choose|j: int| 0 <= j < s.len() && s[j] == y;
        assert(s.push(x)[j] == y);
    }
    if x == y {
        assert(s.push(x)[s.len() as int] == y);
    }
    if s.push(x).contains(y) {
        let j = choose|j: int| 0 <= j < s.push(x).len() && s.push(x)[j] == y;
        if j < s.len() {
            assert(s[j] == y);
        }
    }
}

/// An id is among the distinct ids exactly when some game has it.
pub proof fn lemma_has_id_distinct(db: Seq<EntryView>, id: Seq<char>)
    ensures
        distinct_ids(db).contains(id) == has_id(db, id),
    decreases db.len(),
{
    if db.len() > 0 {
        let d = db.drop_last();
        lemma_has_id_distinct(d, id);
        lemma_has_id_last(db, id);
        if !has_id(d, db.last().id) {
            lemma_push_contains(distinct_ids(d), db.last().id, id);
        }
    } else {
        assert(!has_id(db, id));
    }
}

} // verus!

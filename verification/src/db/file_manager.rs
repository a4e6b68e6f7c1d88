//! Where the database file, its temporary copies and its backups live, how
//! they are named, and the checksums of backups. Reading and writing the
//! files is left to the program around the library.
use vstd::prelude::*;
use crate::text::{chars_of, decimal, decimal_chars, push_char, push_str, string_from_chars};

verus! {

/// What a backup is known by: its id, when it was made (milliseconds since
/// the Unix epoch), its size, and the checksum of its content.
pub struct BackupInfo {
    pub id: String,
    pub timestamp: u128,
    pub size: u64,
    pub checksum: String,
    pub version_info: Option<String>,
}

/// `path` joined with the relative `name`, as `Path::join` does on Unix: a
/// separator is put between them unless `path` is empty or already ends
/// with one.
pub open spec fn joined(path: Seq<char>, name: Seq<char>) -> Seq<char> {
    if path.len() == 0 {
        name
    } else if path.last() == '/' {
        path + name
    } else {
        path + "/"@ + name
    }
}

/// Joins a relative name onto a path (see `joined`).
pub fn join_path(path: &str, name: &str) -> (r: String)
    ensures
        r@ == joined(path@, name@),
{
    let p = chars_of(path);
    let mut r = string_from_chars(p.as_slice());
    if p.len() > 0 && p[p.len() - 1] != '/' {
        push_char(&mut r, '/');
        proof {
            reveal_strlit("/");
            assert(r@ == path@ + "/"@);
        }
    }
    push_str(&mut r, name);
    r
}

/// A fresh random id (`Uuid::new_v4`) in its hyphenated form, which has 36
/// characters.
#[verifier::external_body]
pub(crate) fn new_uuid_text() -> (r: String)
    ensures
        r@.len() == 36,
{
    uuid::Uuid::new_v4().to_string()
}

/// The SHA-256 digest of the bytes.
pub uninterp spec fn sha256(data: Seq<u8>) -> Seq<u8>;

/// `Sha256::digest`: the 32 bytes of the SHA-256 digest of the data.
#[verifier::external_body]
fn sha256_digest(data: &[u8]) -> (r: Vec<u8>)
    ensures
        r@ == sha256(data@),
        r@.len() == 32,
{
    <sha2::Sha256 as sha2::Digest>::digest(data).to_vec()
}

/// The lower-case hexadecimal digit for `d < 16`.
pub open spec fn hex_digit(d: nat) -> char {
    if d < 10 {
        ((d + 48) as u8) as char
    } else {
        ((d + 87) as u8) as char
    }
}

/// The bytes in lower-case hexadecimal, two digits each (what `{:x}`
/// writes for a digest).
pub open spec fn hex_lower(bytes: Seq<u8>) -> Seq<char>
    decreases bytes.len(),
{
    if bytes.len() == 0 {
        Seq::empty()
    } else {
        hex_lower(bytes.drop_last()) + seq![hex_digit(bytes.last() as nat / 16), hex_digit(bytes.last() as nat % 16)]
    }
}

fn hex_char(d: u8) -> (c: char)
    requires
        d < 16,
    ensures
        c == hex_digit(d as nat),
{
    if d < 10 {
        (d + 48) as char
    } else {
        (d + 87) as char
    }
}

/// The bytes in lower-case hexadecimal.
pub fn to_hex(bytes: &[u8]) -> (r: String)
    ensures
        r@ == hex_lower(bytes@),
{
    let mut r = String::new();
    let n = bytes.len();
    for i in 0..n
        invariant
            n == bytes@.len(),
            r@ == hex_lower(bytes@.take(i as int)),
    {
        let b = bytes[i];
        push_char(&mut r, hex_char(b / 16));
        push_char(&mut r, hex_char(b % 16));
        assert(bytes@.take(i + 1).drop_last() =~= bytes@.take(i as int));
        assert(r@ =~= hex_lower(bytes@.take(i + 1)));
    }
    assert(bytes@.take(n as int) =~= bytes@);
    r
}

/// The checksum of a backup's content: its SHA-256 digest in lower-case
/// hexadecimal.
pub fn checksum(data: &[u8]) -> (r: String)
    ensures
        r@ == hex_lower(sha256(data@)),
        r@.len() == 64,
{
    let digest = sha256_digest(data);
    proof { lemma_hex_len(digest@); }
    to_hex(digest.as_slice())
}

proof fn lemma_hex_len(bytes: Seq<u8>)
    ensures
        hex_lower(bytes).len() == 2 * bytes.len(),
    decreases bytes.len(),
{
    if bytes.len() > 0 {
        lemma_hex_len(bytes.drop_last());
    }
}

/// The id of a backup made `secs` seconds after the Unix epoch with the
/// label: the seconds, an underscore, the label.
pub open spec fn backup_id_of(secs: u64, label: Seq<char>) -> Seq<char> {
    decimal(secs as nat) + "_"@ + label
}

/// The id of a backup made `secs` seconds after the Unix epoch.
pub fn backup_id(secs: u64, label: &str) -> (r: String)
    ensures
        r@ == backup_id_of(secs, label@),
{
    let mut r = string_from_chars(decimal_chars(secs as u128).as_slice());
    push_str(&mut r, "_");
    push_str(&mut r, label);
    r
}

/// The file name of a backup: its id with the `.json` extension.
pub fn backup_file_name(id: &str) -> (r: String)
    ensures
        r@ == id@ + ".json"@,
{
    let mut r = string_from_chars(chars_of(id).as_slice());
    push_str(&mut r, ".json");
    r
}

/// The file name of a temporary copy with the id.
pub fn temp_file_name(id: &str) -> (r: String)
    ensures
        r@ == "detectable_"@ + id@ + ".json.tmp"@,
{
    let mut r = string_from_chars(chars_of("detectable_").as_slice());
    push_str(&mut r, id);
    push_str(&mut r, ".json.tmp");
    r
}

/// The id of a backup file, when the file name has the `.json` extension
/// after a non-empty stem: the name without it (`Path::file_stem`).
pub open spec fn backup_id_from_name(name: Seq<char>) -> Option<Seq<char>> {
    if name.len() > 5 && name.subrange(name.len() - 5, name.len() as int) == ".json"@ {
        Some(name.subrange(0, name.len() - 5))
    } else {
        None
    }
}

/// The id of a backup file, from its file name.
pub fn backup_id_from_file_name(name: &str) -> (r: Option<String>)
    ensures
        match backup_id_from_name(name@) {
            Some(id) => r matches Some(s) && s@ == id,
            None => r is None,
        },
{
    let c = chars_of(name);
    let n = c.len();
    proof {
        reveal_strlit(".json");
    }
    if n <= 5 {
        return None;
    }
    if !(c[n - 5] == '.' && c[n - 4] == 'j' && c[n - 3] == 's' && c[n - 2] == 'o' && c[n - 1] == 'n') {
        proof {
            if c@.subrange(n - 5, n as int) == ".json"@ {
                assert(c@.subrange(n - 5, n as int)[0] == c@[n - 5]);
                assert(c@.subrange(n - 5, n as int)[1] == c@[n - 4]);
                assert(c@.subrange(n - 5, n as int)[2] == c@[n - 3]);
                assert(c@.subrange(n - 5, n as int)[3] == c@[n - 2]);
                assert(c@.subrange(n - 5, n as int)[4] == c@[n - 1]);
            }
        }
        return None;
    }
    assert(c@.subrange(n - 5, n as int) =~= ".json"@);
    let mut r = String::new();
    for i in 0..n - 5
        invariant
            n == c@.len(),
            n > 5,
            r@ == c@.subrange(0, i as int),
    {
        push_char(&mut r, c[i]);
        assert(c@.subrange(0, i + 1) =~= c@.subrange(0, i as int).push(c@[i as int]));
    }
    Some(r)
}

/// A temporary copy is removed once it is more than an hour old: a file
/// whose name has the `tmp` extension (a non-empty stem, a dot, `tmp`).
pub open spec fn is_stale_temp(name: Seq<char>, age_secs: u64) -> bool {
    &&& name.len() > 4
    &&& name.subrange(name.len() - 4, name.len() as int) == ".tmp"@
    &&& age_secs > 3600
}

/// Whether the file `name`, last modified `age_secs` seconds ago, is a
/// stale temporary copy (see `is_stale_temp`).
pub fn stale_temp_file(name: &str, age_secs: u64) -> (r: bool)
    ensures
        r == is_stale_temp(name@, age_secs),
{
    proof { reveal_strlit(".tmp"); }
    let c = chars_of(name);
    let n = c.len();
    if n <= 4 || age_secs <= 3600 {
        return false;
    }
    let ok = c[n - 4] == '.' && c[n - 3] == 't' && c[n - 2] == 'm' && c[n - 1] == 'p';
    proof {
        let tail = c@.subrange(n - 4, n as int);
        if ok {
            assert(tail =~= ".tmp"@);
        } else {
            if tail == ".tmp"@ {
                assert(tail[0] == c@[n - 4]);
                assert(tail[1] == c@[n - 3]);
                assert(tail[2] == c@[n - 2]);
                assert(tail[3] == c@[n - 1]);
            }
        }
    }
    ok
}

/// Which backups to remove so that `keep_count` remain: those after the
/// first `keep_count` of the list (newest first).
pub fn backups_to_remove(backups: &Vec<BackupInfo>, keep_count: usize) -> (r: Vec<usize>)
    ensures
        backups@.len() <= keep_count ==> r@.len() == 0,
        backups@.len() > keep_count ==> r@.len() == backups@.len() - keep_count
            && forall|i: int| 0 <= i < r@.len() ==> r@[i] == keep_count + i,
{
    let mut r: Vec<usize> = Vec::new();
    if backups.len() > keep_count {
        let n = backups.len();
        for i in keep_count..n
            invariant
                n == backups@.len(),
                keep_count <= i <= n,
                r@.len() == i - keep_count,
                forall|k: int| 0 <= k < r@.len() ==> r@[k] == keep_count + k,
        {
            r.push(i);
        }
    }
    r
}

/// The backups are listed newest first.
pub open spec fn newest_first(s: Seq<BackupInfo>) -> bool {
    forall|i: int, j: int| 0 <= i < j < s.len() ==> s[i].timestamp >= s[j].timestamp
}

/// The backups made at time `t`.
pub open spec fn made_at(t: u128) -> spec_fn(BackupInfo) -> bool {
    |b: BackupInfo| b.timestamp == t
}

proof fn lemma_insert_keeps_ties(old_r: Seq<BackupInfo>, j: int, x: BackupInfo, t: u128)
    requires
        0 <= j <= old_r.len(),
        forall|k: int| 0 <= k < j ==> old_r[k].timestamp > x.timestamp,
    ensures
        old_r.insert(j, x).filter(made_at(t)) == (if x.timestamp == t {
            seq![x] + old_r.filter(made_at(t))
        } else {
            old_r.filter(made_at(t))
        }),
{
    let p = made_at(t);
    let front = old_r.take(j);
    let back = old_r.skip(j);
    assert(old_r =~= front + back);
    assert(old_r.insert(j, x) =~= front + (seq![x] + back));
    Seq::filter_distributes_over_add(front, back, p);
    Seq::filter_distributes_over_add(front, seq![x] + back, p);
    back.lemma_filter_prepend(x, p);
    if x.timestamp == t {
        assert forall|k: int| 0 <= k < front.len() implies !p(#[trigger] front[k]) by {
            assert(front[k] == old_r[k]);
        }
        assert(front.all(|y: BackupInfo| !p(y)));
        front.lemma_all_neg_filter_empty(p);
        assert(front.filter(p) =~= Seq::<BackupInfo>::empty());
        assert(front.filter(p) + (seq![x] + back.filter(p)) =~= seq![x] + (front.filter(p) + back.filter(p)));
    } else {
        assert(seq![x].filter(p) =~= Seq::<BackupInfo>::empty()) by {
            Seq::<BackupInfo>::empty().lemma_filter_prepend(x, p);
            assert(seq![x] =~= seq![x] + Seq::<BackupInfo>::empty());
        }
        assert((if p(x) { seq![x] } else { Seq::<BackupInfo>::empty() }) + back.filter(p) =~= back.filter(p));
    }
}

/// The same backups, newest first (the order in which they are listed);
/// backups made at the same time keep their order.
pub fn sort_newest_first(backups: Vec<BackupInfo>) -> (r: Vec<BackupInfo>)
    ensures
        r@.to_multiset() == backups@.to_multiset(),
        newest_first(r@),
        forall|t: u128| #[trigger] r@.filter(made_at(t)) == backups@.filter(made_at(t)),
{
    let ghost all = backups@;
    let mut rest = backups;
    let mut r: Vec<BackupInfo> = Vec::new();
    proof {
        broadcast use vstd::multiset::group_multiset_axioms;
        broadcast use vstd::multiset::group_multiset_properties;
        broadcast use vstd::seq_lib::group_to_multiset_ensures;
        assert(r@.to_multiset().len() == 0);
        assert(r@.to_multiset() =~= vstd::multiset::Multiset::empty());
        assert(r@.to_multiset().add(rest@.to_multiset()) =~= all.to_multiset());
    }
    proof {
        assert forall|t: u128| #[trigger] r@.filter(made_at(t)) == all.skip(rest@.len() as int).filter(made_at(t)) by {
            assert(r@ =~= Seq::<BackupInfo>::empty());
            assert(all.skip(rest@.len() as int) =~= Seq::<BackupInfo>::empty());
        }
    }
    while rest.len() > 0
        invariant
            r@.to_multiset().add(rest@.to_multiset()) == all.to_multiset(),
            newest_first(r@),
            rest@.len() <= all.len(),
            rest@ == all.take(rest@.len() as int),
            forall|t: u128| #[trigger] r@.filter(made_at(t)) == all.skip(rest@.len() as int).filter(made_at(t)),
        decreases rest.len(),
    {
        let ghost before = rest@;
        let x = rest.pop().unwrap();
        proof {
            assert(before =~= rest@.push(x));
            vstd::seq_lib::to_multiset_build(rest@, x);
        }
        let mut j: usize = 0;
        while j < r.len() && r[j].timestamp > x.timestamp
            invariant
                j <= r@.len(),
                forall|k: int| 0 <= k < j ==> r@[k].timestamp > x.timestamp,
            decreases r@.len() - j,
        {
            j = j + 1;
        }
        let ghost old_r = r@;
        r.insert(j, x);
        proof {
            let n = rest@.len() as int;
            assert(x == all[n]);
            assert(rest@ =~= all.take(n));
            assert(all.skip(n) =~= seq![x] + all.skip(n + 1));
            assert forall|t: u128| #[trigger] r@.filter(made_at(t)) == all.skip(n).filter(made_at(t)) by {
                lemma_insert_keeps_ties(old_r, j as int, x, t);
                all.skip(n + 1).lemma_filter_prepend(x, made_at(t));
            }
        }
        proof {
            broadcast use vstd::multiset::group_multiset_axioms;
            vstd::seq_lib::to_multiset_insert(old_r, j as int, x);
            assert(r@.to_multiset().add(rest@.to_multiset()) =~= all.to_multiset());
            assert forall|a: int, b: int| 0 <= a < b < r@.len() implies r@[a].timestamp
                >= r@[b].timestamp by {
                if j < old_r.len() {
                    assert(old_r[j as int].timestamp <= x.timestamp);
                }
                if a < j && b > j {
                    assert(r@[a] == old_r[a]);
                    assert(r@[b] == old_r[b - 1]);
                } else if a == j && b > j {
                    assert(r@[b] == old_r[b - 1]);
                    assert(old_r[j as int].timestamp >= old_r[b - 1].timestamp);
                } else if a < j && b == j {
                    assert(r@[a] == old_r[a]);
                } else if b < j {
                    assert(r@[a] == old_r[a]);
                    assert(r@[b] == old_r[b]);
                } else {
                    assert(r@[a] == old_r[a - 1]);
                    assert(r@[b] == old_r[b - 1]);
                }
            }
        }
    }
    proof {
        broadcast use vstd::multiset::group_multiset_axioms;
        broadcast use vstd::multiset::group_multiset_properties;
        broadcast use vstd::seq_lib::group_to_multiset_ensures;
        assert(rest@ =~= Seq::<BackupInfo>::empty());
        assert(rest@.to_multiset().len() == 0);
        assert(rest@.to_multiset() =~= vstd::multiset::Multiset::empty());
        assert(r@.to_multiset().add(rest@.to_multiset()) =~= r@.to_multiset());
        assert(all.skip(0) =~= all);
    }
    r
}

/// A backup's file name gives its id back.
pub proof fn law_backup_name_round_trip(id: Seq<char>)
    requires
        id.len() > 0,
    ensures
        backup_id_from_name(id + ".json"@) == Some(id),
{
    reveal_strlit(".json");
    let name = id + ".json"@;
    assert(name.subrange(name.len() - 5, name.len() as int) =~= ".json"@);
    assert(name.subrange(0, name.len() - 5) =~= id);
}

/// Of a list kept newest first, the cleanup keeps the newest: every backup
/// kept is at least as recent as every backup removed.
pub proof fn law_cleanup_keeps_the_newest(backups: Seq<BackupInfo>, keep_count: usize, i: int, j: int)
    requires
        newest_first(backups),
        0 <= i < keep_count,
        keep_count <= j < backups.len(),
    ensures
        backups[i].timestamp >= backups[j].timestamp,
{
}

/// The files of the database: the database itself, and the directories of
/// temporary copies and of backups.
pub struct FileManager {
    database_path: String,
    temp_dir: String,
    backup_dir: String,
}

impl FileManager {
    /// The layout under `base_path`: `detectable.json`, `temp` and
    /// `backups`. Creating the directories is left to the caller.
    pub fn new(base_path: &str) -> (r: Self)
        ensures
            r.database_path() == joined(base_path@, "detectable.json"@),
            r.temp_dir() == joined(base_path@, "temp"@),
            r.backup_dir() == joined(base_path@, "backups"@),
    {
        FileManager {
            database_path: join_path(base_path, "detectable.json"),
            temp_dir: join_path(base_path, "temp"),
            backup_dir: join_path(base_path, "backups"),
        }
    }

    /// The path of the database file.
    pub closed spec fn database_path(&self) -> Seq<char> {
        self.database_path@
    }

    /// The directory of temporary copies.
    pub closed spec fn temp_dir(&self) -> Seq<char> {
        self.temp_dir@
    }

    /// The directory of backups.
    pub closed spec fn backup_dir(&self) -> Seq<char> {
        self.backup_dir@
    }

    /// The path of the database file.
    pub fn get_database_path(&self) -> (r: &str)
        ensures
            r@ == self.database_path(),
    {
        self.database_path.as_str()
    }

    /// The directory of temporary copies.
    pub fn get_temp_dir(&self) -> (r: &str)
        ensures
            r@ == self.temp_dir(),
    {
        self.temp_dir.as_str()
    }

    /// The directory of backups.
    pub fn get_backup_dir(&self) -> (r: &str)
        ensures
            r@ == self.backup_dir(),
    {
        self.backup_dir.as_str()
    }

    /// The path of a new temporary copy, named with a fresh random id.
    pub fn new_temp_path(&self) -> (r: String)
        ensures
            exists|id: Seq<char>| id.len() == 36 && r@ == joined(self.temp_dir(), "detectable_"@ + id + ".json.tmp"@),
    {
        let id = new_uuid_text();
        let name = temp_file_name(id.as_str());
        let r = join_path(self.temp_dir.as_str(), name.as_str());
        assert(r@ == joined(self.temp_dir(), "detectable_"@ + id@ + ".json.tmp"@));
        r
    }

    /// The path of the backup with the id.
    pub fn backup_path(&self, id: &str) -> (r: String)
        ensures
            r@ == joined(self.backup_dir(), id@ + ".json"@),
    {
        let name = backup_file_name(id);
        join_path(self.backup_dir.as_str(), name.as_str())
    }
}

} // verus!

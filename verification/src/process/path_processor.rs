//! Turns an executable path into the list of name variants that the game
//! database is matched against.
use vstd::prelude::*;
use crate::text::{
    contains_seq, occurs_at, append_chars, char_views, chars_eq, chars_of, dedup, dedup_list, join_from, join_with,
    remove_all, remove_all_chars, replace_char, replace_char_in, split_chars, split_on,
    string_from_chars, string_views, strings_from_lists, to_lowercase, unicode_lowercase,
};

verus! {

/// A processed executable path.
pub struct ProcessedPath {
    pub original: String,
    pub normalized: String,
    pub variants: Vec<String>,
}

/// Produces the name variants of executable paths.
pub struct PathProcessor;

/// Lower-cased with every backslash turned into a forward slash.
pub open spec fn normalized_path(path: Seq<char>) -> Seq<char> {
    replace_char(unicode_lowercase(path), '\\', '/')
}

/// The joined suffixes made of the last `1, 2, ..., k - 1` components of
/// `parts` (in that order), leaving out empty ones.
pub open spec fn suffix_variants(parts: Seq<Seq<char>>, k: nat) -> Seq<Seq<char>>
    decreases k,
{
    if k <= 1 {
        Seq::<Seq<char>>::empty()
    } else {
        let prev = suffix_variants(parts, (k - 1) as nat);
        let suffix = join_with(parts.subrange(parts.len() - (k - 1), parts.len() as int), seq!['/']);
        if suffix.len() > 0 {
            prev.push(suffix)
        } else {
            prev
        }
    }
}

/// Every proper suffix of the path (by `/`-separated components), shortest
/// first, empty ones left out; the whole path itself is never included.
pub open spec fn path_suffixes(path: Seq<char>) -> Seq<Seq<char>> {
    let parts = split_on(path, '/');
    suffix_variants(parts, parts.len())
}

/// The 64-bit markers that are stripped from variants, in the order tried.
pub open spec fn marker(k: int) -> Seq<char> {
    if k == 0 {
        seq!['6', '4']
    } else if k == 1 {
        seq!['.', 'x', '6', '4']
    } else if k == 2 {
        seq!['x', '6', '4']
    } else {
        seq!['_', '6', '4']
    }
}

/// The variants of `v` with each marker removed, in marker order, keeping
/// only those that differ from `v`; `drop_empty` also leaves out empty ones.
pub open spec fn cleaned_from(v: Seq<char>, k: nat, drop_empty: bool) -> Seq<Seq<char>>
    decreases k,
{
    if k == 0 {
        Seq::<Seq<char>>::empty()
    } else {
        let prev = cleaned_from(v, (k - 1) as nat, drop_empty);
        let c = remove_all(v, marker(k - 1));
        if c != v && !(drop_empty && c.len() == 0) {
            prev.push(c)
        } else {
            prev
        }
    }
}

/// All cleaned variants of `v` (markers `64`, `.x64`, `x64`, `_64`).
pub open spec fn cleaned(v: Seq<char>, drop_empty: bool) -> Seq<Seq<char>> {
    cleaned_from(v, 4, drop_empty)
}

/// The cleaned variants of every item of `vs`, item by item.
pub open spec fn all_cleaned(vs: Seq<Seq<char>>) -> Seq<Seq<char>>
    decreases vs.len(),
{
    if vs.len() == 0 {
        Seq::<Seq<char>>::empty()
    } else {
        all_cleaned(vs.drop_last()) + cleaned(vs.last(), false)
    }
}

/// The variants of a normalized path: its suffixes, then the cleaned form of
/// each suffix, first occurrences kept.
pub open spec fn path_variants(normalized: Seq<char>) -> Seq<Seq<char>> {
    let base = path_suffixes(normalized);
    dedup(base + all_cleaned(base))
}

proof fn lemma_remove_all_shortens(s: Seq<char>, p: Seq<char>)
    requires
        p.len() > 0,
    ensures
        remove_all(s, p).len() <= s.len(),
        contains_seq(s, p) ==> remove_all(s, p).len() < s.len(),
    decreases s.len(),
{
    if s.len() < p.len() {
        if contains_seq(s, p) {
            let i = choose|i: int| occurs_at(s, p, i);
        }
    } else if s.take(p.len() as int) == p {
        lemma_remove_all_shortens(s.skip(p.len() as int), p);
    } else {
        let t = s.skip(1);
        lemma_remove_all_shortens(t, p);
        assert(remove_all(s, p) == seq![s[0]] + remove_all(t, p));
        if contains_seq(s, p) {
            let i = choose|i: int| occurs_at(s, p, i);
            if i == 0 {
                assert(s.subrange(0, p.len() as int) =~= s.take(p.len() as int));
            }
            assert(i >= 1);
            assert(t.subrange(i - 1, i - 1 + p.len()) =~= s.subrange(i, i + p.len()));
            assert(occurs_at(t, p, i - 1));
        }
    }
}

proof fn lemma_cleaned_from_has(v: Seq<char>, k: nat, drop_empty: bool, j: int)
    requires
        0 <= j < k <= 4,
        remove_all(v, marker(j)) != v,
        !(drop_empty && remove_all(v, marker(j)).len() == 0),
    ensures
        cleaned_from(v, k, drop_empty).contains(remove_all(v, marker(j))),
    decreases k,
{
    let prev = cleaned_from(v, (k - 1) as nat, drop_empty);
    let c = remove_all(v, marker(k - 1));
    if j == k - 1 {
        assert(cleaned_from(v, k, drop_empty) == prev.push(c));
        assert(prev.push(c)[prev.len() as int] == c);
    } else {
        lemma_cleaned_from_has(v, (k - 1) as nat, drop_empty, j);
        let i = choose|i: int| 0 <= i < prev.len() && prev[i] == remove_all(v, marker(j));
        if cleaned_from(v, k, drop_empty) != prev {
            assert(prev.push(c)[i] == prev[i]);
        }
    }
}

/// The position of a 64-bit marker in the order they are tried.
proof fn lemma_marker_of(m: Seq<char>) -> (j: int)
    requires
        m == seq!['6', '4'] || m == seq!['.', 'x', '6', '4'] || m == seq!['x', '6', '4'] || m == seq!['_', '6', '4'],
    ensures
        0 <= j < 4,
        marker(j) == m,
{
    if m == seq!['6', '4'] {
        0
    } else if m == seq!['.', 'x', '6', '4'] {
        1
    } else if m == seq!['x', '6', '4'] {
        2
    } else {
        3
    }
}

/// The cleaned forms of `v` hold `v` with every occurrence of a 64-bit
/// marker it contains removed, when that leaves something (or empty ones
/// are kept).
pub proof fn lemma_cleaned_has_marker_removed(v: Seq<char>, m: Seq<char>, drop_empty: bool)
    requires
        m == seq!['6', '4'] || m == seq!['.', 'x', '6', '4'] || m == seq!['x', '6', '4'] || m == seq!['_', '6', '4'],
        contains_seq(v, m),
        !(drop_empty && remove_all(v, m).len() == 0),
    ensures
        cleaned(v, drop_empty).contains(remove_all(v, m)),
{
    let j = lemma_marker_of(m);
    lemma_remove_all_shortens(v, m);
    lemma_cleaned_from_has(v, 4, drop_empty, j);
}

/// Of at least two components, the last one, when not empty, is among the
/// proper suffixes.
pub proof fn lemma_suffixes_have_last(parts: Seq<Seq<char>>, k: nat)
    requires
        2 <= k <= parts.len(),
        parts.last().len() > 0,
    ensures
        suffix_variants(parts, k).contains(parts.last()),
    decreases k,
{
    let prev = suffix_variants(parts, (k - 1) as nat);
    if k == 2 {
        let sub = parts.subrange(parts.len() - 1, parts.len() as int);
        assert(sub.len() == 1);
        assert(join_with(sub, seq!['/']) == sub[0]);
        assert(sub[0] == parts.last());
        assert(suffix_variants(parts, k) == prev.push(parts.last()));
        assert(prev.push(parts.last())[prev.len() as int] == parts.last());
    } else {
        lemma_suffixes_have_last(parts, (k - 1) as nat);
        let i = choose|i: int| 0 <= i < prev.len() && prev[i] == parts.last();
        if suffix_variants(parts, k) != prev {
            let sfx = join_with(parts.subrange(parts.len() - (k - 1), parts.len() as int), seq!['/']);
            assert(suffix_variants(parts, k) == prev.push(sfx));
            assert(prev.push(sfx)[i] == parts.last());
        }
    }
}

/// Removing repeats keeps every item.
pub proof fn lemma_dedup_keeps(s: Seq<Seq<char>>, x: Seq<char>)
    requires
        s.contains(x),
    ensures
        dedup(s).contains(x),
    decreases s.len(),
{
    let d = dedup(s.drop_last());
    if s.last() == x {
        if !d.contains(x) {
            assert(d.push(x)[d.len() as int] == x);
        }
    } else {
        let i = choose|i: int| 0 <= i < s.len() && s[i] == x;
        assert(s.drop_last()[i] == x);
        lemma_dedup_keeps(s.drop_last(), x);
        let k = choose|k: int| 0 <= k < d.len() && d[k] == x;
        if !d.contains(s.last()) {
            assert(d.push(s.last())[k] == x);
        }
    }
}

proof fn lemma_all_cleaned_has(vs: Seq<Seq<char>>, i: int, x: Seq<char>)
    requires
        0 <= i < vs.len(),
        cleaned(vs[i], false).contains(x),
    ensures
        all_cleaned(vs).contains(x),
    decreases vs.len(),
{
    let a = all_cleaned(vs.drop_last());
    let c = cleaned(vs.last(), false);
    if i == vs.len() - 1 {
        let k = choose|k: int| 0 <= k < c.len() && c[k] == x;
        assert((a + c)[a.len() + k] == x);
    } else {
        assert(vs.drop_last()[i] == vs[i]);
        lemma_all_cleaned_has(vs.drop_last(), i, x);
        let k = choose|k: int| 0 <= k < a.len() && a[k] == x;
        assert((a + c)[k] == x);
    }
}

/// Every 64-bit marker (`64`, `.x64`, `x64`, `_64`) is stripped: when the
/// last component of a path with a directory contains one, the variants
/// hold that component with every occurrence of the marker removed, next
/// to the component itself.
pub proof fn law_markers_are_stripped(path: Seq<char>, m: Seq<char>)
    requires
        m == seq!['6', '4'] || m == seq!['.', 'x', '6', '4'] || m == seq!['x', '6', '4'] || m == seq!['_', '6', '4'],
        split_on(path, '/').len() >= 2,
        split_on(path, '/').last().len() > 0,
        contains_seq(split_on(path, '/').last(), m),
    ensures
        path_variants(path).contains(split_on(path, '/').last()),
        path_variants(path).contains(remove_all(split_on(path, '/').last(), m)),
{
    let parts = split_on(path, '/');
    let c = parts.last();
    let base = path_suffixes(path);
    lemma_suffixes_have_last(parts, parts.len());
    let i = choose|i: int| 0 <= i < base.len() && base[i] == c;
    lemma_cleaned_has_marker_removed(c, m, false);
    lemma_all_cleaned_has(base, i, remove_all(c, m));
    let ac = all_cleaned(base);
    let k = choose|k: int| 0 <= k < ac.len() && ac[k] == remove_all(c, m);
    assert((base + ac)[i] == c);
    assert((base + ac)[base.len() + k] == remove_all(c, m));
    lemma_dedup_keeps(base + ac, c);
    lemma_dedup_keeps(base + ac, remove_all(c, m));
}

/// Removes one marker from `v` and records the result when it differs.
fn push_cleaned(out: &mut Vec<Vec<char>>, v: &Vec<char>, k: usize, drop_empty: bool)
    requires
        k < 4,
        char_views(old(out)@) == cleaned_from(v@, k as nat, drop_empty),
    ensures
        char_views(final(out)@) == cleaned_from(v@, (k + 1) as nat, drop_empty),
{
    let pattern: Vec<char> = if k == 0 {
        vec!['6', '4']
    } else if k == 1 {
        vec!['.', 'x', '6', '4']
    } else if k == 2 {
        vec!['x', '6', '4']
    } else {
        vec!['_', '6', '4']
    };
    assert(pattern@ == marker(k as int));
    let c = remove_all_chars(v.as_slice(), pattern.as_slice());
    let same = chars_eq(c.as_slice(), v.as_slice());
    if !same && !(drop_empty && c.len() == 0) {
        let ghost before = out@;
        out.push(c);
        assert(char_views(out@) =~= char_views(before).push(remove_all(v@, marker(k as int))));
    }
}

/// The cleaned variants of one variant.
pub fn cleaned_variants(v: &Vec<char>, drop_empty: bool) -> (r: Vec<Vec<char>>)
    ensures
        char_views(r@) == cleaned(v@, drop_empty),
{
    let mut out: Vec<Vec<char>> = Vec::new();
    assert(char_views(out@) =~= cleaned_from(v@, 0, drop_empty));
    push_cleaned(&mut out, v, 0, drop_empty);
    push_cleaned(&mut out, v, 1, drop_empty);
    push_cleaned(&mut out, v, 2, drop_empty);
    push_cleaned(&mut out, v, 3, drop_empty);
    out
}

/// The proper suffixes of a path, shortest first, empty ones left out.
pub fn suffixes_of(path: &[char]) -> (r: Vec<Vec<char>>)
    ensures
        char_views(r@) == path_suffixes(path@),
{
    let parts = split_chars(path, '/');
    let ghost pv = split_on(path@, '/');
    assert(char_views(parts@) =~= pv);
    let n = parts.len();
    let mut out: Vec<Vec<char>> = Vec::new();
    let sep = vec!['/'];
    let mut i: usize = 1;
    while i < n
        invariant
            n == parts@.len(),
            char_views(parts@) == pv,
            sep@ == seq!['/'],
            1 <= i <= n || (n == 0 && i == 1),
            char_views(out@) == suffix_variants(pv, i as nat),
        decreases n - i,
    {
        let suffix = join_from(&parts, n - i, sep.as_slice());
        if suffix.len() > 0 {
            let ghost before = out@;
            out.push(suffix);
            assert(char_views(out@) =~= char_views(before).push(suffix@));
        }
        i = i + 1;
    }
    proof {
        if n == 0 {
            assert(suffix_variants(pv, 0) == suffix_variants(pv, 1));
        }
    }
    out
}

impl PathProcessor {
    /// A path processor.
    pub fn new() -> (r: Self) {
        PathProcessor
    }

    /// Processes a path into its normalized form and its variants.
    pub fn process_path(&self, path: &str) -> (r: ProcessedPath)
        ensures
            r.original@ == path@,
            r.normalized@ == normalized_path(path@),
            string_views(r.variants@) == path_variants(normalized_path(path@)),
    {
        let normalized = self.normalize_path(path);
        let variants = self.generate_variants(normalized.as_str());
        ProcessedPath { original: string_from_chars(chars_of(path).as_slice()), normalized, variants }
    }

    /// Lower-cases the path and turns backslashes into forward slashes.
    pub fn normalize_path(&self, path: &str) -> (r: String)
        ensures
            r@ == normalized_path(path@),
    {
        let lowered = to_lowercase(path);
        let chars = chars_of(lowered.as_str());
        let replaced = replace_char_in(chars.as_slice(), '\\', '/');
        string_from_chars(replaced.as_slice())
    }

    /// The variants of an already normalized path.
    pub fn generate_variants(&self, path: &str) -> (r: Vec<String>)
        ensures
            string_views(r@) == path_variants(path@),
    {
        let chars = chars_of(path);
        let base = suffixes_of(chars.as_slice());
        let mut all: Vec<Vec<char>> = base.clone();
        assert(char_views(all@) == char_views(base@)) by {
            assert(all@.len() == base@.len());
            assert forall|k: int| 0 <= k < all@.len() implies #[trigger] char_views(all@)[k] == char_views(base@)[k] by {
                assert(cloned::<Vec<char>>(base@[k], all@[k]));
            }
            assert(char_views(all@) =~= char_views(base@));
        }
        let ghost bv = char_views(base@);
        let n = base.len();
        for i in 0..n
            invariant
                n == base@.len(),
                bv == char_views(base@),
                char_views(all@) == bv + all_cleaned(bv.take(i as int)),
        {
            assert(bv.take(i + 1).drop_last() =~= bv.take(i as int));
            let extra = cleaned_variants(&base[i], false);
            let ghost before = all@;
            let mut k: usize = 0;
            let m = extra.len();
            while k < m
                invariant
                    m == extra@.len(),
                    k <= m,
                    char_views(all@) == char_views(before) + char_views(extra@).take(k as int),
                decreases m - k,
            {
                let item = extra[k].clone();
                let ghost prev = all@;
                all.push(item);
                assert(char_views(all@) =~= char_views(prev).push(extra@[k as int]@));
                assert(char_views(extra@).take(k + 1) =~= char_views(extra@).take(k as int).push(extra@[k as int]@));
                k = k + 1;
            }
            assert(char_views(extra@).take(m as int) =~= char_views(extra@));
            assert(char_views(all@) =~= bv + all_cleaned(bv.take(i + 1)));
        }
        assert(bv.take(n as int) =~= bv);
        let unique = dedup_list(&all);
        strings_from_lists(&unique)
    }
}

} // verus!

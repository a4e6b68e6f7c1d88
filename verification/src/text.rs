//! Verified character-sequence helpers shared by the path, command-line and
//! protocol code.
use vstd::prelude::*;

verus! {

/// Appends one character to a `String` (`String::push`).
#[verifier::external_body]
pub(crate) fn push_char(s: &mut String, c: char)
    ensures
        final(s)@ == old(s)@.push(c),
{
    s.push(c);
}

/// Appends a string slice to a `String`.
pub(crate) fn push_str(s: &mut String, t: &str)
    ensures
        final(s)@ == old(s)@ + t@,
{
    s.append(t);
}

/// Lower-cases a string the way `str::to_lowercase` does (full Unicode
/// case mapping); the mapping itself is not restated here.
pub uninterp spec fn unicode_lowercase(s: Seq<char>) -> Seq<char>;

/// `str::to_lowercase`: the result is `unicode_lowercase` of the input.
#[verifier::external_body]
pub(crate) fn to_lowercase(s: &str) -> (r: String)
    ensures
        r@ == unicode_lowercase(s@),
{
    s.to_lowercase()
}

/// The characters of a string slice, in order.
pub fn chars_of(s: &str) -> (v: Vec<char>)
    ensures
        v@ == s@,
{
    let mut v: Vec<char> = Vec::new();
    for c in it: s.chars()
        invariant
            v@ == it.seq().take(it.index() as int),
    {
        v.push(c);
    }
    v
}

/// Builds a `String` holding exactly the given characters.
pub fn string_from_chars(v: &[char]) -> (s: String)
    ensures
        s@ == v@,
{
    let mut s = String::new();
    let n = v.len();
    for i in 0..n
        invariant
            n == v@.len(),
            s@ == v@.take(i as int),
    {
        push_char(&mut s, v[i]);
        assert(v@.take(i + 1) == v@.take(i as int).push(v@[i as int]));
    }
    assert(v@.take(n as int) == v@);
    s
}

/// A copy of a string with the same characters.
pub fn copy_string(s: &String) -> (r: String)
    ensures
        r@ == s@,
{
    s.clone()
}

/// Compares two strings character by character.
pub fn str_eq(a: &str, b: &str) -> (r: bool)
    ensures
        r == (a@ == b@),
{
    let va = chars_of(a);
    let vb = chars_of(b);
    chars_eq(&va, &vb)
}

/// Compares two character slices.
pub fn chars_eq(a: &[char], b: &[char]) -> (r: bool)
    ensures
        r == (a@ == b@),
{
    if a.len() != b.len() {
        return false;
    }
    let n = a.len();
    for i in 0..n
        invariant
            n == a@.len(),
            n == b@.len(),
            forall|j: int| 0 <= j < i ==> a@[j] == b@[j],
    {
        if a[i] != b[i] {
            return false;
        }
    }
    assert(a@ =~= b@);
    true
}

/// `s` with every occurrence of `from` replaced by `to`.
pub open spec fn replace_char(s: Seq<char>, from: char, to: char) -> Seq<char> {
    Seq::new(s.len(), |i: int| if s[i] == from { to } else { s[i] })
}

/// Replaces every occurrence of one character by another.
pub fn replace_char_in(s: &[char], from: char, to: char) -> (r: Vec<char>)
    ensures
        r@ == replace_char(s@, from, to),
{
    let mut r: Vec<char> = Vec::new();
    let n = s.len();
    for i in 0..n
        invariant
            n == s@.len(),
            r@ == replace_char(s@, from, to).take(i as int),
    {
        let c = s[i];
        if c == from {
            r.push(to);
        } else {
            r.push(c);
        }
        assert(r@ =~= replace_char(s@, from, to).take(i + 1));
    }
    assert(replace_char(s@, from, to).take(n as int) =~= replace_char(s@, from, to));
    r
}

/// `p` occurs in `s` starting at position `i`.
pub open spec fn occurs_at(s: Seq<char>, p: Seq<char>, i: int) -> bool {
    0 <= i && i + p.len() <= s.len() && s.subrange(i, i + p.len()) == p
}

/// `p` occurs somewhere in `s` (the empty pattern occurs everywhere).
pub open spec fn contains_seq(s: Seq<char>, p: Seq<char>) -> bool {
    exists|i: int| occurs_at(s, p, i)
}

/// Decides whether `p` occurs in `s`.
pub fn contains_chars(s: &[char], p: &[char]) -> (r: bool)
    ensures
        r == contains_seq(s@, p@),
{
    let n = s.len();
    let m = p.len();
    if m > n {
        assert(!contains_seq(s@, p@));
        return false;
    }
    if m == 0 {
        assert(s@.subrange(0, 0) =~= p@);
        assert(occurs_at(s@, p@, 0));
        return true;
    }
    let mut i: usize = 0;
    while i <= n - m
        invariant
            n == s@.len(),
            m == p@.len(),
            0 < m <= n,
            i <= n - m + 1,
            forall|k: int| 0 <= k < i ==> !occurs_at(s@, p@, k),
        decreases n - m + 1 - i,
    {
        if matches_at(s, p, i) {
            assert(occurs_at(s@, p@, i as int));
            return true;
        }
        i = i + 1;
    }
    assert forall|k: int| !occurs_at(s@, p@, k) by {
        if 0 <= k && k + m <= n {
            assert(k < i);
        }
    }
    false
}

/// Decides whether `p` occurs in `s` at position `i`.
pub fn matches_at(s: &[char], p: &[char], i: usize) -> (r: bool)
    ensures
        r == occurs_at(s@, p@, i as int),
{
    let n = s.len();
    let m = p.len();
    if i > n || m > n - i {
        return false;
    }
    for j in 0..m
        invariant
            n == s@.len(),
            m == p@.len(),
            i + m <= n,
            forall|k: int| 0 <= k < j ==> s@[i + k] == p@[k],
    {
        if s[i + j] != p[j] {
            assert(s@.subrange(i as int, i + m)[j as int] != p@[j as int]);
            return false;
        }
    }
    assert(s@.subrange(i as int, i + m) =~= p@);
    true
}

/// `s` with every non-overlapping occurrence of the non-empty pattern `p`
/// removed, scanning from the left (what `str::replace(p, "")` gives).
pub open spec fn remove_all(s: Seq<char>, p: Seq<char>) -> Seq<char>
    recommends
        p.len() > 0,
    decreases s.len(),
{
    if p.len() == 0 || s.len() < p.len() {
        s
    } else if s.take(p.len() as int) == p {
        remove_all(s.skip(p.len() as int), p)
    } else {
        seq![s[0]] + remove_all(s.skip(1), p)
    }
}

/// Removes every non-overlapping occurrence of `p` from `s`, left to right.
pub fn remove_all_chars(s: &[char], p: &[char]) -> (r: Vec<char>)
    requires
        p@.len() > 0,
    ensures
        r@ == remove_all(s@, p@),
{
    let n = s.len();
    let m = p.len();
    let mut r: Vec<char> = Vec::new();
    let mut i: usize = 0;
    assert(s@.skip(0) =~= s@);
    assert(r@ + remove_all(s@, p@) =~= remove_all(s@, p@));
    while i < n
        invariant
            n == s@.len(),
            m == p@.len(),
            m > 0,
            i <= n,
            r@ + remove_all(s@.skip(i as int), p@) == remove_all(s@, p@),
        decreases n - i,
    {
        let ghost rest = s@.skip(i as int);
        if matches_at(s, p, i) {
            assert(rest.take(m as int) =~= s@.subrange(i as int, i + m));
            assert(rest.skip(m as int) =~= s@.skip(i + m));
            i = i + m;
        } else {
            proof {
                if rest.len() >= m {
                    assert(rest.take(m as int) =~= s@.subrange(i as int, i + m));
                    assert(rest.take(m as int) != p@);
                }
                assert(rest.skip(1) =~= s@.skip(i + 1));
            }
            let c = s[i];
            let ghost before = r@;
            r.push(c);
            proof {
                if rest.len() < m {
                    assert(remove_all(rest, p@) == rest);
                    assert(remove_all(rest.skip(1), p@) == rest.skip(1));
                    assert(rest =~= seq![c] + rest.skip(1));
                }
            }
            assert(r@ + remove_all(s@.skip(i + 1), p@) =~= before + (seq![c] + remove_all(rest.skip(1), p@)));
            i = i + 1;
        }
    }
    assert(s@.skip(i as int) =~= Seq::<char>::empty());
    assert(r@ + Seq::<char>::empty() =~= r@);
    r
}

/// The pieces of `s` between occurrences of `sep` (what `str::split` with a
/// single character yields): always at least one piece, possibly empty.
pub open spec fn split_on(s: Seq<char>, sep: char) -> Seq<Seq<char>>
    decreases s.len(),
{
    if s.len() == 0 {
        seq![Seq::<char>::empty()]
    } else {
        let r = split_on(s.drop_last(), sep);
        if s.last() == sep {
            r.push(Seq::<char>::empty())
        } else {
            r.update(r.len() - 1, r.last().push(s.last()))
        }
    }
}

/// `split_on` always yields at least one piece.
pub proof fn lemma_split_on_nonempty(s: Seq<char>, sep: char)
    ensures
        split_on(s, sep).len() >= 1,
    decreases s.len(),
{
    if s.len() > 0 {
        lemma_split_on_nonempty(s.drop_last(), sep);
    }
}

/// Splits `s` at every occurrence of `sep`.
pub fn split_chars(s: &[char], sep: char) -> (r: Vec<Vec<char>>)
    ensures
        r@.len() == split_on(s@, sep).len(),
        forall|k: int| 0 <= k < r@.len() ==> #[trigger] r@[k]@ == split_on(s@, sep)[k],
{
    let n = s.len();
    let mut done: Vec<Vec<char>> = Vec::new();
    let mut cur: Vec<char> = Vec::new();
    for i in 0..n
        invariant
            n == s@.len(),
            done@.len() + 1 == split_on(s@.take(i as int), sep).len(),
            forall|k: int| 0 <= k < done@.len() ==> #[trigger] done@[k]@ == split_on(s@.take(i as int), sep)[k],
            cur@ == split_on(s@.take(i as int), sep).last(),
    {
        proof {
            lemma_split_on_nonempty(s@.take(i as int), sep);
            assert(s@.take(i + 1).drop_last() =~= s@.take(i as int));
        }
        let c = s[i];
        if c == sep {
            let finished = cur;
            done.push(finished);
            cur = Vec::new();
        } else {
            cur.push(c);
        }
    }
    proof {
        lemma_split_on_nonempty(s@.take(n as int), sep);
        assert(s@.take(n as int) =~= s@);
    }
    done.push(cur);
    done
}

/// The pieces joined with `sep` between consecutive pieces.
pub open spec fn join_with(parts: Seq<Seq<char>>, sep: Seq<char>) -> Seq<char>
    decreases parts.len(),
{
    if parts.len() == 0 {
        Seq::<char>::empty()
    } else if parts.len() == 1 {
        parts[0]
    } else {
        join_with(parts.drop_last(), sep) + sep + parts.last()
    }
}

/// Joins the characters of `parts` with `sep` between consecutive pieces.
pub fn join_strings(parts: &[String], sep: &[char]) -> (r: Vec<char>)
    ensures
        r@ == join_with(parts@.map_values(|p: String| p@), sep@),
{
    let ghost views = parts@.map_values(|p: String| p@);
    let mut r: Vec<char> = Vec::new();
    let n = parts.len();
    for i in 0..n
        invariant
            n == parts@.len(),
            views == parts@.map_values(|p: String| p@),
            r@ == join_with(views.take(i as int), sep@),
    {
        let piece = chars_of(parts[i].as_str());
        assert(views.take(i + 1).drop_last() =~= views.take(i as int));
        if i > 0 {
            append_chars(&mut r, sep);
        } else {
            assert(r@ =~= Seq::<char>::empty());
        }
        append_chars(&mut r, &piece);
        assert(views.take(i + 1).last() == views[i as int]);
    }
    assert(views.take(n as int) =~= views);
    r
}

/// Appends a slice of characters to a vector.
pub fn append_chars(r: &mut Vec<char>, t: &[char])
    ensures
        final(r)@ == old(r)@ + t@,
{
    let n = t.len();
    let ghost start = r@;
    for i in 0..n
        invariant
            n == t@.len(),
            r@ == start + t@.take(i as int),
    {
        r.push(t[i]);
        assert(t@.take(i + 1) =~= t@.take(i as int).push(t@[i as int]));
    }
    assert(t@.take(n as int) =~= t@);
}

/// The decimal digit for `d < 10`.
pub open spec fn digit_char(d: nat) -> char {
    if d == 0 { '0' } else if d == 1 { '1' } else if d == 2 { '2' } else if d == 3 { '3' }
    else if d == 4 { '4' } else if d == 5 { '5' } else if d == 6 { '6' } else if d == 7 { '7' }
    else if d == 8 { '8' } else { '9' }
}

/// The decimal rendering of `n` without leading zeros (what `to_string`
/// gives for an unsigned integer).
pub open spec fn decimal(n: nat) -> Seq<char>
    decreases n,
{
    if n < 10 {
        seq![digit_char(n)]
    } else {
        decimal(n / 10).push(digit_char(n % 10))
    }
}

fn digit_of(d: u8) -> (c: char)
    requires
        d < 10,
    ensures
        c == digit_char(d as nat),
{
    if d == 0 { '0' } else if d == 1 { '1' } else if d == 2 { '2' } else if d == 3 { '3' }
    else if d == 4 { '4' } else if d == 5 { '5' } else if d == 6 { '6' } else if d == 7 { '7' }
    else if d == 8 { '8' } else { '9' }
}

/// Renders `n` in decimal.
pub fn decimal_chars(n: u128) -> (r: Vec<char>)
    ensures
        r@ == decimal(n as nat),
    decreases n,
{
    if n < 10 {
        let mut r = Vec::new();
        r.push(digit_of(n as u8));
        r
    } else {
        let mut r = decimal_chars(n / 10);
        r.push(digit_of((n % 10) as u8));
        r
    }
}

/// Renders `n` in decimal as a `String`.
pub fn decimal_string(n: u128) -> (s: String)
    ensures
        s@ == decimal(n as nat),
{
    let v = decimal_chars(n);
    string_from_chars(&v)
}


/// The character sequences held by a list of character vectors.
pub open spec fn char_views(v: Seq<Vec<char>>) -> Seq<Seq<char>> {
    v.map_values(|x: Vec<char>| x@)
}

/// The character sequences held by a list of strings.
pub open spec fn string_views(v: Seq<String>) -> Seq<Seq<char>> {
    v.map_values(|x: String| x@)
}

/// `s` with later repetitions dropped, keeping each first occurrence in place.
pub open spec fn dedup(s: Seq<Seq<char>>) -> Seq<Seq<char>>
    decreases s.len(),
{
    if s.len() == 0 {
        s
    } else {
        let d = dedup(s.drop_last());
        if d.contains(s.last()) {
            d
        } else {
            d.push(s.last())
        }
    }
}

/// Decides whether `x` is one of the items of `list`.
pub fn list_contains(list: &Vec<Vec<char>>, x: &[char]) -> (r: bool)
    ensures
        r == char_views(list@).contains(x@),
{
    let n = list.len();
    for j in 0..n
        invariant
            n == list@.len(),
            forall|k: int| 0 <= k < j ==> list@[k]@ != x@,
    {
        if chars_eq(&list[j], x) {
            assert(char_views(list@)[j as int] == x@);
            return true;
        }
    }
    assert forall|k: int| 0 <= k < char_views(list@).len() implies char_views(list@)[k] != x@ by {
        assert(list@[k]@ != x@);
    }
    false
}

/// Drops later repetitions, keeping first occurrences in order.
pub fn dedup_list(items: &Vec<Vec<char>>) -> (r: Vec<Vec<char>>)
    ensures
        char_views(r@) == dedup(char_views(items@)),
{
    let mut r: Vec<Vec<char>> = Vec::new();
    let n = items.len();
    for i in 0..n
        invariant
            n == items@.len(),
            char_views(r@) == dedup(char_views(items@).take(i as int)),
    {
        assert(char_views(items@).take(i + 1).drop_last() =~= char_views(items@).take(i as int));
        assert(char_views(items@).take(i + 1).last() == items@[i as int]@);
        if !list_contains(&r, &items[i]) {
            let item = items[i].clone();
            assert(item@ == items@[i as int]@);
            r.push(item);
            assert(char_views(r@) =~= dedup(char_views(items@).take(i as int)).push(items@[i as int]@));
        }
    }
    assert(char_views(items@).take(n as int) =~= char_views(items@));
    r
}

/// Converts character vectors to strings, one for one.
pub fn strings_from_lists(items: &Vec<Vec<char>>) -> (r: Vec<String>)
    ensures
        string_views(r@) == char_views(items@),
{
    let mut r: Vec<String> = Vec::new();
    let n = items.len();
    for i in 0..n
        invariant
            n == items@.len(),
            string_views(r@) == char_views(items@).take(i as int),
    {
        let s = string_from_chars(items[i].as_slice());
        assert(s@ == items@[i as int]@);
        let ghost before = r@;
        assert(string_views(before).len() == i);
        assert(before.len() == i);
        r.push(s);
        assert(r@ == before.push(s));
        assert forall|k: int| 0 <= k < i + 1 implies #[trigger] string_views(r@)[k] == char_views(items@).take(i + 1)[k] by {
            if k < i {
                assert(string_views(before)[k] == char_views(items@).take(i as int)[k]);
                assert(r@[k] == before[k]);
            } else {
                assert(r@[k] == s);
            }
        }
        assert(string_views(r@) =~= char_views(items@).take(i + 1));
    }
    assert(char_views(items@).take(n as int) =~= char_views(items@));
    r
}

/// Joins `parts[from..]` with `sep` between consecutive pieces.
pub fn join_from(parts: &Vec<Vec<char>>, from: usize, sep: &[char]) -> (r: Vec<char>)
    requires
        from <= parts@.len(),
    ensures
        r@ == join_with(char_views(parts@).subrange(from as int, parts@.len() as int), sep@),
{
    let ghost views = char_views(parts@).subrange(from as int, parts@.len() as int);
    let mut r: Vec<char> = Vec::new();
    let n = parts.len();
    let mut i = from;
    while i < n
        invariant
            n == parts@.len(),
            from <= i <= n,
            views == char_views(parts@).subrange(from as int, n as int),
            r@ == join_with(views.take(i - from), sep@),
        decreases n - i,
    {
        assert(views.take(i - from + 1).drop_last() =~= views.take(i - from));
        assert(views.take(i - from + 1).last() == parts@[i as int]@);
        if i > from {
            append_chars(&mut r, sep);
        } else {
            assert(r@ =~= Seq::<char>::empty());
        }
        append_chars(&mut r, parts[i].as_slice());
        i = i + 1;
    }
    assert(views.take(n - from) =~= views);
    r
}

/// The items of `parts` that are not empty, in order.
pub open spec fn non_empty(parts: Seq<Seq<char>>) -> Seq<Seq<char>>
    decreases parts.len(),
{
    if parts.len() == 0 {
        parts
    } else if parts.last().len() == 0 {
        non_empty(parts.drop_last())
    } else {
        non_empty(parts.drop_last()).push(parts.last())
    }
}

/// The executable and the arguments of a NUL-separated command line: the
/// first piece is the executable; when it is empty there is nothing (empty
/// executable, no arguments); otherwise the arguments are the later non-empty
/// pieces.
pub open spec fn cmdline_executable(content: Seq<char>) -> Seq<char> {
    split_on(content, '\0')[0]
}

/// See `cmdline_executable`.
pub open spec fn cmdline_arguments(content: Seq<char>) -> Seq<Seq<char>> {
    let parts = split_on(content, '\0');
    if parts[0].len() == 0 {
        Seq::<Seq<char>>::empty()
    } else {
        non_empty(parts.skip(1))
    }
}

/// Splits a NUL-separated command line into its executable and arguments.
pub fn split_cmdline(content: &str) -> (r: (String, Vec<String>))
    ensures
        r.0@ == cmdline_executable(content@),
        string_views(r.1@) == cmdline_arguments(content@),
{
    let chars = chars_of(content);
    let parts = split_chars(chars.as_slice(), '\0');
    proof {
        lemma_split_on_nonempty(chars@, '\0');
    }
    if parts[0].len() == 0 {
        return (String::new(), Vec::new());
    }
    let executable = string_from_chars(parts[0].as_slice());
    let ghost pv = split_on(chars@, '\0');
    let mut args: Vec<String> = Vec::new();
    let n = parts.len();
    let mut i: usize = 1;
    while i < n
        invariant
            n == parts@.len(),
            n == pv.len(),
            1 <= i <= n,
            forall|k: int| 0 <= k < n ==> #[trigger] parts@[k]@ == pv[k],
            string_views(args@) == non_empty(pv.subrange(1, i as int)),
        decreases n - i,
    {
        assert(pv.subrange(1, i + 1).drop_last() =~= pv.subrange(1, i as int));
        assert(pv.subrange(1, i + 1).last() == parts@[i as int]@);
        if parts[i].len() > 0 {
            let a = string_from_chars(parts[i].as_slice());
            let ghost before = args@;
            args.push(a);
            assert(string_views(args@) =~= string_views(before).push(a@));
        }
        i = i + 1;
    }
    assert(pv.subrange(1, n as int) =~= pv.skip(1));
    (executable, args)
}

/// Decides whether the arguments joined with single spaces contain `needle`.
pub fn joined_contains(args: &[String], needle: &str) -> (r: bool)
    ensures
        r == contains_seq(join_with(string_views(args@), seq![' ']), needle@),
{
    let sep = vec![' '];
    assert(sep@ =~= seq![' ']);
    let joined = join_strings(args, sep.as_slice());
    assert(args@.map_values(|p: String| p@) == string_views(args@));
    let pat = chars_of(needle);
    contains_chars(joined.as_slice(), pat.as_slice())
}

/// Compares two lists of strings item by item.
pub fn strings_equal(a: &Vec<String>, b: &Vec<String>) -> (r: bool)
    ensures
        r == (string_views(a@) == string_views(b@)),
{
    if a.len() != b.len() {
        assert(string_views(a@).len() != string_views(b@).len());
        return false;
    }
    let n = a.len();
    for i in 0..n
        invariant
            n == a@.len(),
            n == b@.len(),
            forall|k: int| 0 <= k < i ==> a@[k]@ == b@[k]@,
    {
        if !str_eq(a[i].as_str(), b[i].as_str()) {
            assert(string_views(a@)[i as int] != string_views(b@)[i as int]);
            return false;
        }
    }
    assert(string_views(a@) =~= string_views(b@));
    true
}

/// A copy of a list of strings.
pub fn copy_strings(v: &Vec<String>) -> (r: Vec<String>)
    ensures
        string_views(r@) == string_views(v@),
{
    let mut r: Vec<String> = Vec::new();
    let n = v.len();
    for i in 0..n
        invariant
            n == v@.len(),
            string_views(r@) == string_views(v@).take(i as int),
    {
        let s = copy_string(&v[i]);
        let ghost before = r@;
        r.push(s);
        assert(string_views(r@) =~= string_views(before).push(s@));
        assert(string_views(v@).take(i + 1) =~= string_views(v@).take(i as int).push(v@[i as int]@));
    }
    assert(string_views(v@).take(n as int) =~= string_views(v@));
    r
}
/// `c` is an ASCII decimal digit.
pub open spec fn is_digit(c: char) -> bool {
    '0' <= c && c <= '9'
}

/// The value of a decimal digit.
pub open spec fn digit_value(c: char) -> int {
    c as int - '0' as int
}

/// Every character is a decimal digit.
pub open spec fn all_digits(s: Seq<char>) -> bool {
    forall|i: int| 0 <= i < s.len() ==> is_digit(#[trigger] s[i])
}

/// The number the decimal digits stand for.
pub open spec fn digits_value(s: Seq<char>) -> nat
    decreases s.len(),
{
    if s.len() == 0 {
        0
    } else {
        (digits_value(s.drop_last()) * 10 + digit_value(s.last())) as nat
    }
}

/// The number a non-empty string of decimal digits stands for.
pub open spec fn natural_value(s: Seq<char>) -> Option<nat> {
    if s.len() > 0 && all_digits(s) {
        Some(digits_value(s))
    } else {
        None
    }
}

/// What `str::parse` gives for an unsigned integer type whose largest
/// value is `max`: an optional `+`, then one or more decimal digits, with a
/// value of at most `max`.
pub open spec fn unsigned_parse(s: Seq<char>, max: nat) -> Option<nat> {
    let t = if s.len() > 0 && s[0] == '+' { s.skip(1) } else { s };
    match natural_value(t) {
        Some(v) => if v <= max { Some(v) } else { None },
        None => None,
    }
}

/// A longer run of digits never stands for a smaller number.
pub proof fn lemma_digits_prefix_le(s: Seq<char>, k: int)
    requires
        all_digits(s),
        0 <= k <= s.len(),
    ensures
        digits_value(s.take(k)) <= digits_value(s),
    decreases s.len() - k,
{
    if k < s.len() {
        let t = s.take(k + 1);
        assert(t.drop_last() =~= s.take(k));
        assert(is_digit(t.last()));
        lemma_digits_prefix_le(s, k + 1);
    } else {
        assert(s.take(k) =~= s);
    }
}

/// Reading back the decimal rendering of `n` gives `n`.
pub proof fn lemma_decimal_reads_back(n: nat)
    ensures
        natural_value(decimal(n)) == Some(n),
        decimal(n).len() > 0,
    decreases n,
{
    if n < 10 {
        let d = decimal(n);
        assert(d.drop_last() =~= Seq::<char>::empty());
        assert(digit_value(digit_char(n)) == n as int);
        assert(digits_value(d.drop_last()) == 0);
        assert(digits_value(d) == digits_value(d.drop_last()) * 10 + digit_value(d.last()));
        assert(is_digit(d[0]));
        assert(all_digits(d));
    } else {
        lemma_decimal_reads_back(n / 10);
        let p = decimal(n / 10);
        let d = decimal(n);
        assert(d.drop_last() =~= p);
        assert(digit_value(digit_char(n % 10)) == (n % 10) as int);
        assert(is_digit(digit_char(n % 10)));
        assert forall|i: int| 0 <= i < d.len() implies is_digit(#[trigger] d[i]) by {
            if i < p.len() {
                assert(d[i] == p[i]);
            }
        }
        assert(digits_value(p) == n / 10);
        assert(d.last() == digit_char(n % 10));
        assert(digits_value(d) == digits_value(d.drop_last()) * 10 + digit_value(d.last()));
        assert(n == (n / 10) * 10 + n % 10);
        assert(digits_value(d) == n);
    }
}

/// Reads a non-empty run of decimal digits whose value is at most `max`.
pub fn parse_natural(s: &[char], max: u64) -> (r: Option<u64>)
    ensures
        r == match natural_value(s@) {
            Some(v) => if v <= max { Some(v as u64) } else { None::<u64> },
            None => None::<u64>,
        },
{
    if s.len() == 0 {
        return None;
    }
    let mut acc: u64 = 0;
    let n = s.len();
    for i in 0..n
        invariant
            n == s@.len(),
            n > 0,
            all_digits(s@.take(i as int)),
            acc as nat == digits_value(s@.take(i as int)),
            acc <= max,
    {
        let c = s[i];
        proof {
            assert(s@.take(i + 1).drop_last() =~= s@.take(i as int));
            assert(s@.take(i + 1).last() == c);
        }
        if !('0' <= c && c <= '9') {
            assert(!is_digit(s@[i as int]));
            return None;
        }
        let d: u64 = ((c as u32) - ('0' as u32)) as u64;
        assert(d as int == digit_value(c));
        let next: u128 = (acc as u128) * 10 + (d as u128);
        assert forall|k: int| 0 <= k < i + 1 implies is_digit(#[trigger] s@.take(i + 1)[k]) by {
            if k < i {
                assert(s@.take(i + 1)[k] == s@.take(i as int)[k]);
            }
        }
        if next > max as u128 {
            proof {
                if all_digits(s@) {
                    lemma_digits_prefix_le(s@, i + 1);
                }
            }
            return None;
        }
        acc = next as u64;
    }
    assert(s@.take(n as int) =~= s@);
    Some(acc)
}

/// `str::parse` for an unsigned integer type whose largest value is `max`.
pub fn parse_unsigned(s: &str, max: u64) -> (r: Option<u64>)
    ensures
        r == match unsigned_parse(s@, max as nat) {
            Some(v) => Some(v as u64),
            None => None::<u64>,
        },
{
    let chars = chars_of(s);
    if chars.len() > 0 && chars[0] == '+' {
        let rest = slice_from(&chars, 1);
        assert(rest@ =~= s@.skip(1));
        parse_natural(rest.as_slice(), max)
    } else {
        parse_natural(chars.as_slice(), max)
    }
}

/// The characters from position `k` on.
pub fn slice_from(v: &Vec<char>, k: usize) -> (r: Vec<char>)
    requires
        k <= v@.len(),
    ensures
        r@ == v@.skip(k as int),
{
    let mut r: Vec<char> = Vec::new();
    let n = v.len();
    for i in k..n
        invariant
            n == v@.len(),
            k <= n,
            r@ == v@.subrange(k as int, i as int),
    {
        r.push(v[i]);
        assert(v@.subrange(k as int, i + 1) =~= v@.subrange(k as int, i as int).push(v@[i as int]));
    }
    assert(v@.subrange(k as int, n as int) =~= v@.skip(k as int));
    r
}

} // verus!

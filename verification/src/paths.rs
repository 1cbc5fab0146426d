//! Path keys and path matching.
//!
//! Running processes are keyed by `<lower-cased full path>-<pid>`.  This
//! module builds such keys and decides whether a caller-supplied path matches
//! one, either as a full executable path (`<path>-<digits>`) or as a
//! containing folder (`<path>\<single-segment>-<digits>`).

use vstd::prelude::*;

use crate::digits::{digits_of, push_decimal};

verus! {

/// Whether `c` is a decimal digit.
pub open spec fn is_digit(c: char) -> bool {
    48 <= c as u32 && c as u32 <= 57
}

/// Whether every character of `s` is a decimal digit.
pub open spec fn all_digits(s: Seq<char>) -> bool {
    forall|i: int| 0 <= i < s.len() ==> is_digit(s[i])
}

/// Forward slashes rewritten to backslashes, the separator the running keys
/// use.
pub open spec fn normalize_seps(s: Seq<char>) -> Seq<char> {
    s.map_values(|c: char| if c == '/' { '\\' } else { c })
}

/// `s` with every trailing backslash removed.
pub open spec fn strip_trailing_seps(s: Seq<char>) -> Seq<char>
    decreases s.len(),
{
    if s.len() > 0 && s.last() == '\\' {
        strip_trailing_seps(s.drop_last())
    } else {
        s
    }
}

/// A caller-supplied path brought into the form the running keys use:
/// separators unified, trailing separators dropped.
pub open spec fn normalized_query(s: Seq<char>) -> Seq<char> {
    strip_trailing_seps(normalize_seps(s))
}

/// The running-table key for a process: its lower-cased path, a dash, and
/// the decimal digits of its pid.
pub open spec fn key_of(path: Seq<char>, pid: u32) -> Seq<char> {
    path + seq!['-'] + digits_of(pid as nat)
}

/// Whether key `k` is `q` followed by a dash and one or more digits.
pub open spec fn path_key_match(q: Seq<char>, k: Seq<char>) -> bool {
    &&& k.len() >= q.len() + 2
    &&& k.subrange(0, q.len() as int) == q
    &&& k[q.len() as int] == '-'
    &&& all_digits(k.subrange(q.len() + 1 as int, k.len() as int))
}

/// Whether `j` marks the dash of a match of folder query `q` against key
/// `k`: `k` is `q`, a backslash, one further separator-free nonempty
/// segment, a dash at `j`, and one or more digits.
pub open spec fn folder_key_match_at(q: Seq<char>, k: Seq<char>, j: int) -> bool {
    &&& k.len() > q.len()
    &&& k.subrange(0, q.len() as int) == q
    &&& k[q.len() as int] == '\\'
    &&& q.len() + 1 < j < k.len() - 1
    &&& k[j] == '-'
    &&& all_digits(k.subrange(j + 1, k.len() as int))
    &&& forall|i: int| q.len() + 1 <= i < j ==> k[i] != '\\'
}

/// Whether key `k` is `q` plus exactly one more path segment and a pid
/// suffix.
pub open spec fn folder_key_match(q: Seq<char>, k: Seq<char>) -> bool {
    exists|j: int| folder_key_match_at(q, k, j)
}

/// One running-table key matched against a normalized query, as a folder or
/// as a full path.
pub open spec fn key_matches(q: Seq<char>, k: Seq<char>, as_folder: bool) -> bool {
    if as_folder {
        folder_key_match(q, k)
    } else {
        path_key_match(q, k)
    }
}

/// Whether `c` is a decimal digit.
fn digit(c: char) -> (r: bool)
    ensures
        r == is_digit(c),
{
    let u = c as u32;
    48 <= u && u <= 57
}

/// The characters of `s` as a vector.
pub fn chars_of(s: &str) -> (r: Vec<char>)
    ensures
        r@ == s@,
{
    let n = s.unicode_len();
    let mut r: Vec<char> = Vec::new();
    let mut i: usize = 0;
    while i < n
        invariant
            i <= n,
            n == s@.len(),
            r@ == s@.subrange(0, i as int),
        decreases n - i,
    {
        let c = s.get_char(i);
        r.push(c);
        i = i + 1;
        proof {
            assert(r@ =~= s@.subrange(0, i as int));
        }
    }
    proof {
        assert(r@ =~= s@);
    }
    r
}

/// The key for `path` and `pid`, as a string.
pub fn key_for(path: &str, pid: u32) -> (r: String)
    ensures
        r@ == key_of(path@, pid),
{
    proof {
        reveal_strlit("-");
    }
    let mut s = path.to_owned();
    s.append("-");
    proof {
        assert(s@ =~= path@ + seq!['-']);
    }
    push_decimal(&mut s, pid);
    proof {
        assert(s@ =~= key_of(path@, pid));
    }
    s
}

/// A caller-supplied query path, normalized: separators unified to
/// backslashes and trailing separators dropped.
pub fn normalize_query(s: &str) -> (r: Vec<char>)
    ensures
        r@ == normalized_query(s@),
{
    let raw = chars_of(s);
    let n = raw.len();
    let mut v: Vec<char> = Vec::new();
    let mut i: usize = 0;
    while i < n
        invariant
            i <= n,
            n == raw@.len(),
            v@ == normalize_seps(raw@.subrange(0, i as int)),
        decreases n - i,
    {
        let c = raw[i];
        if c == '/' {
            v.push('\\');
        } else {
            v.push(c);
        }
        i = i + 1;
        proof {
            assert(v@ =~= normalize_seps(raw@.subrange(0, i as int)));
        }
    }
    proof {
        assert(raw@.subrange(0, n as int) =~= raw@);
    }
    while v.len() > 0 && v[v.len() - 1] == '\\'
        invariant
            strip_trailing_seps(v@) == strip_trailing_seps(normalize_seps(raw@)),
        decreases v.len(),
    {
        let ghost before = v@;
        v.pop();
        proof {
            assert(v@ =~= before.drop_last());
        }
    }
    v
}

/// Whether the first `q.len()` characters of `k` are exactly `q`.
fn has_prefix(q: &Vec<char>, k: &Vec<char>) -> (r: bool)
    ensures
        r == (k@.len() >= q@.len() && k@.subrange(0, q@.len() as int) == q@),
{
    if k.len() < q.len() {
        return false;
    }
    let n = q.len();
    let mut i: usize = 0;
    while i < n
        invariant
            i <= n,
            n == q@.len(),
            k@.len() >= q@.len(),
            forall|m: int| 0 <= m < i ==> k@[m] == q@[m],
        decreases n - i,
    {
        if k[i] != q[i] {
            return false;
        }
        i = i + 1;
    }
    proof {
        assert(k@.subrange(0, q@.len() as int) =~= q@);
    }
    true
}

/// The least index `e` such that every character of `k` from `e` on is a
/// digit.
#[verifier::loop_isolation(false)]
fn digit_suffix_start(k: &Vec<char>) -> (e: usize)
    ensures
        e <= k@.len(),
        all_digits(k@.subrange(e as int, k@.len() as int)),
        e > 0 ==> !is_digit(k@[e - 1]),
{
    let mut e = k.len();
    while e > 0 && digit(k[e - 1])
        invariant
            e <= k@.len(),
            all_digits(k@.subrange(e as int, k@.len() as int)),
        decreases e,
    {
        let ghost prev = e as int;
        e = e - 1;
        proof {
            assert forall|m: int| 0 <= m < k@.len() - e implies is_digit(
                #[trigger] k@.subrange(e as int, k@.len() as int)[m],
            ) by {
                assert(k@.subrange(e as int, k@.len() as int)[m] == k@[m + e]);
                if m + e >= prev {
                    assert(k@.subrange(prev, k@.len() as int)[m + e - prev] == k@[m + e]);
                }
            }
        }
    }
    e
}

/// Whether key `k` matches the full-path query `q`.
#[verifier::loop_isolation(false)]
pub fn is_path_key_match(q: &Vec<char>, k: &Vec<char>) -> (r: bool)
    ensures
        r == path_key_match(q@, k@),
{
    if k.len() <= q.len() || k.len() - q.len() < 2 {
        return false;
    }
    if !has_prefix(q, k) {
        return false;
    }
    if k[q.len()] != '-' {
        return false;
    }
    let n = k.len();
    let mut i: usize = q.len() + 1;
    while i < n
        invariant
            q@.len() + 1 <= i <= n,
            forall|m: int| q@.len() + 1 <= m < i ==> is_digit(k@[m]),
        decreases n - i,
    {
        if !digit(k[i]) {
            proof {
                assert(k@.subrange(q@.len() + 1 as int, k@.len() as int)[i - (q@.len() + 1)]
                    == k@[i as int]);
            }
            return false;
        }
        i = i + 1;
    }
    proof {
        assert forall|m: int| 0 <= m < k@.len() - (q@.len() + 1) implies is_digit(
            #[trigger] k@.subrange(q@.len() + 1 as int, k@.len() as int)[m],
        ) by {
            assert(k@.subrange(q@.len() + 1 as int, k@.len() as int)[m] == k@[m + q@.len() + 1]);
        }
    }
    true
}

/// Any dash position witnessing a folder match must stand just before the
/// digit suffix found by the scan from the end.
proof fn lemma_folder_witness_unique(q: Seq<char>, k: Seq<char>, e: int, j: int)
    requires
        0 <= e <= k.len(),
        all_digits(k.subrange(e, k.len() as int)),
        e > 0 ==> !is_digit(k[e - 1]),
        folder_key_match_at(q, k, j),
    ensures
        j == e - 1,
{
    assert(is_digit(k[k.len() - 1])) by {
        assert(k.subrange(j + 1, k.len() as int)[k.len() - 1 - (j + 1)] == k[k.len() - 1]);
    }
    if j + 1 < e {
        assert(is_digit(k[e - 1])) by {
            assert(k.subrange(j + 1, k.len() as int)[e - 1 - (j + 1)] == k[e - 1]);
        }
        assert(false);
    }
    if j >= e {
        assert(is_digit(k[j])) by {
            assert(k.subrange(e, k.len() as int)[j - e] == k[j]);
        }
        assert(false);
    }
}

/// Whether key `k` matches the folder query `q`: one further separator-free
/// segment, then a pid suffix.
#[verifier::loop_isolation(false)]
pub fn is_folder_key_match(q: &Vec<char>, k: &Vec<char>) -> (r: bool)
    ensures
        r == folder_key_match(q@, k@),
{
    if k.len() <= q.len() {
        return false;
    }
    if !has_prefix(q, k) {
        return false;
    }
    if k[q.len()] != '\\' {
        return false;
    }
    let e = digit_suffix_start(k);
    if e == k.len() || e == 0 || k[e - 1] != '-' {
        proof {
            if exists|j: int| folder_key_match_at(q@, k@, j) {
                let j = choose|j: int| folder_key_match_at(q@, k@, j);
                lemma_folder_witness_unique(q@, k@, e as int, j);
                if e == k.len() {
                    assert(is_digit(k@[k@.len() - 1])) by {
                        assert(k@.subrange(j + 1, k@.len() as int)[k@.len() - 1 - (j + 1)]
                            == k@[k@.len() - 1]);
                    }
                }
            }
        }
        return false;
    }
    let j = e - 1;
    if j <= q.len() || j - q.len() < 2 {
        proof {
            if exists|jj: int| folder_key_match_at(q@, k@, jj) {
                let jj = choose|jj: int| folder_key_match_at(q@, k@, jj);
                lemma_folder_witness_unique(q@, k@, e as int, jj);
            }
        }
        return false;
    }
    let mut i: usize = q.len() + 1;
    while i < j
        invariant
            q@.len() + 1 <= i <= j,
            j < k@.len(),
            forall|m: int| q@.len() + 1 <= m < i ==> k@[m] != '\\',
        decreases j - i,
    {
        if k[i] == '\\' {
            proof {
                if exists|jj: int| folder_key_match_at(q@, k@, jj) {
                    let jj = choose|jj: int| folder_key_match_at(q@, k@, jj);
                    lemma_folder_witness_unique(q@, k@, e as int, jj);
                }
            }
            return false;
        }
        i = i + 1;
    }
    proof {
        assert(all_digits(k@.subrange(j + 1, k@.len() as int))) by {
            assert(k@.subrange(j + 1, k@.len() as int) =~= k@.subrange(e as int, k@.len() as int));
        }
        assert(folder_key_match_at(q@, k@, j as int));
    }
    true
}

/// One key matched against a normalized query.
pub fn is_key_match(q: &Vec<char>, k: &Vec<char>, as_folder: bool) -> (r: bool)
    ensures
        r == key_matches(q@, k@, as_folder),
{
    if as_folder {
        is_folder_key_match(q, k)
    } else {
        is_path_key_match(q, k)
    }
}

/// Whether two strings hold the same characters.
pub fn str_eq(a: &str, b: &str) -> (r: bool)
    ensures
        r == (a@ == b@),
{
    let n = a.unicode_len();
    if n != b.unicode_len() {
        return false;
    }
    let mut i: usize = 0;
    while i < n
        invariant
            i <= n,
            n == a@.len() == b@.len(),
            forall|m: int| 0 <= m < i ==> a@[m] == b@[m],
        decreases n - i,
    {
        if a.get_char(i) != b.get_char(i) {
            return false;
        }
        i = i + 1;
    }
    proof {
        assert(a@ =~= b@);
    }
    true
}

/// The position of the last backslash of `s`, if any.
pub open spec fn rfind_sep(s: Seq<char>) -> Option<int>
    decreases s.len(),
{
    if s.len() == 0 {
        None
    } else if s.last() == '\\' {
        Some(s.len() - 1)
    } else {
        rfind_sep(s.drop_last())
    }
}

/// A found last backslash lies in bounds and is a backslash.
pub proof fn lemma_rfind_sep_props(s: Seq<char>)
    ensures
        rfind_sep(s) matches Some(j) ==> 0 <= j < s.len() && s[j] == '\\',
    decreases s.len(),
{
    if s.len() > 0 && s.last() != '\\' {
        lemma_rfind_sep_props(s.drop_last());
    }
}

/// If `s[j]` is a backslash and nothing after it is, the last backslash is
/// at `j`.
proof fn lemma_rfind_at(s: Seq<char>, j: int)
    requires
        0 <= j < s.len(),
        s[j] == '\\',
        forall|i: int| j < i < s.len() ==> s[i] != '\\',
    ensures
        rfind_sep(s) == Some(j),
    decreases s.len(),
{
    if j == s.len() - 1 {
    } else {
        lemma_rfind_at(s.drop_last(), j);
    }
}

/// A string without backslashes has no last backslash.
proof fn lemma_rfind_none(s: Seq<char>)
    requires
        forall|i: int| 0 <= i < s.len() ==> s[i] != '\\',
    ensures
        rfind_sep(s) == None::<int>,
    decreases s.len(),
{
    if s.len() > 0 {
        lemma_rfind_none(s.drop_last());
    }
}

/// The position of the last backslash of `s`, if any.
pub fn rfind_backslash(s: &str) -> (r: Option<usize>)
    ensures
        match r {
            Some(j) => rfind_sep(s@) == Some(j as int),
            None => rfind_sep(s@) == None::<int>,
        },
{
    let n = s.unicode_len();
    let mut i = n;
    while i > 0
        invariant
            i <= n,
            n == s@.len(),
            forall|m: int| i <= m < s@.len() ==> s@[m] != '\\',
        decreases i,
    {
        if s.get_char(i - 1) == '\\' {
            proof {
                lemma_rfind_at(s@, i - 1);
            }
            return Some(i - 1);
        }
        i = i - 1;
    }
    proof {
        lemma_rfind_none(s@);
    }
    None
}

} // verus!

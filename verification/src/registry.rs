//! The known-game registry: a pattern-to-id dictionary.
//!
//! Patterns (a directory, a full executable path, or a bare executable name,
//! always lower-cased) map many-to-one onto game ids.  The registry is held
//! as a vector of pairs with pairwise-distinct keys and is viewed as a
//! mathematical map.

use vstd::prelude::*;

use crate::paths::str_eq;

verus! {

/// The views of a sequence of registry pairs.
pub open spec fn pair_models(s: Seq<(String, String)>) -> Seq<(Seq<char>, Seq<char>)> {
    s.map_values(|p: (String, String)| (p.0@, p.1@))
}

/// The dictionary a sequence of pairs denotes; later pairs win.
pub open spec fn map_of(s: Seq<(Seq<char>, Seq<char>)>) -> Map<Seq<char>, Seq<char>>
    decreases s.len(),
{
    if s.len() == 0 {
        Map::empty()
    } else {
        map_of(s.drop_last()).insert(s.last().0, s.last().1)
    }
}

/// Whether some pair of `s` has key `k`.
pub open spec fn has_pair_key(s: Seq<(Seq<char>, Seq<char>)>, k: Seq<char>) -> bool {
    exists|i: int| 0 <= i < s.len() && s[i].0 == k
}

/// Whether the keys of `s` are pairwise distinct.
pub open spec fn pairs_distinct(s: Seq<(Seq<char>, Seq<char>)>) -> bool {
    forall|i: int, j: int| 0 <= i < j < s.len() ==> s[i].0 != s[j].0
}

/// A key is in the dictionary exactly when some pair carries it.
pub proof fn lemma_map_of_contains(s: Seq<(Seq<char>, Seq<char>)>, k: Seq<char>)
    ensures
        map_of(s).contains_key(k) <==> has_pair_key(s, k),
    decreases s.len(),
{
    if s.len() > 0 {
        lemma_map_of_contains(s.drop_last(), k);
        if s.last().0 != k && has_pair_key(s, k) {
            let i = choose|i: int| 0 <= i < s.len() && s[i].0 == k;
            assert(s.drop_last()[i] == s[i]);
        }
    }
}

/// With distinct keys, the pair carrying `k` gives the dictionary's value.
pub proof fn lemma_map_of_get(s: Seq<(Seq<char>, Seq<char>)>, i: int)
    requires
        pairs_distinct(s),
        0 <= i < s.len(),
    ensures
        map_of(s).contains_key(s[i].0),
        map_of(s)[s[i].0] == s[i].1,
    decreases s.len(),
{
    lemma_map_of_contains(s, s[i].0);
    if i < s.len() - 1 {
        assert(s.drop_last()[i] == s[i]);
        lemma_map_of_get(s.drop_last(), i);
    }
}

/// Replacing the pair at `i` by one with the same key updates the
/// dictionary at that key.
pub proof fn lemma_map_of_update(s: Seq<(Seq<char>, Seq<char>)>, i: int, v: Seq<char>)
    requires
        pairs_distinct(s),
        0 <= i < s.len(),
    ensures
        map_of(s.update(i, (s[i].0, v))) == map_of(s).insert(s[i].0, v),
    decreases s.len(),
{
    let t = s.update(i, (s[i].0, v));
    if i == s.len() - 1 {
        assert(t.drop_last() =~= s.drop_last());
        assert(map_of(t) =~= map_of(s).insert(s[i].0, v));
    } else {
        assert(t.drop_last() =~= s.drop_last().update(i, (s[i].0, v)));
        assert(s.drop_last()[i] == s[i]);
        lemma_map_of_update(s.drop_last(), i, v);
        assert(map_of(t) =~= map_of(s).insert(s[i].0, v));
    }
}

/// The pairs to keep when the id `id` is removed: those with another id.
pub open spec fn keep_other_ids(id: Seq<char>) -> spec_fn((Seq<char>, Seq<char>)) -> bool {
    |p: (Seq<char>, Seq<char>)| p.1 != id
}

/// Keeping only the pairs whose value differs from `id` removes exactly the
/// keys mapped to `id`.
pub proof fn lemma_map_of_drop_value(s: Seq<(Seq<char>, Seq<char>)>, id: Seq<char>)
    requires
        pairs_distinct(s),
    ensures
        map_of(s.filter(keep_other_ids(id))) == Map::<Seq<char>, Seq<char>>::new(
            |k: Seq<char>| map_of(s).contains_key(k) && map_of(s)[k] != id,
            |k: Seq<char>| map_of(s)[k],
        ),
        pairs_distinct(s.filter(keep_other_ids(id))),
    decreases s.len(),
{
    reveal(Seq::filter);
    let pred = keep_other_ids(id);
    let goal = Map::<Seq<char>, Seq<char>>::new(
        |k: Seq<char>| map_of(s).contains_key(k) && map_of(s)[k] != id,
        |k: Seq<char>| map_of(s)[k],
    );
    if s.len() == 0 {
        assert(map_of(s.filter(pred)) =~= goal);
    } else {
        let head = s.drop_last();
        let a = s.last().0;
        assert(pairs_distinct(head)) by {
            assert(forall|i: int| 0 <= i < head.len() ==> head[i] == s[i]);
        }
        assert(!has_pair_key(head, a)) by {
            assert(forall|i: int| 0 <= i < head.len() ==> head[i] == s[i]);
            if has_pair_key(head, a) {
                let i = choose|i: int| 0 <= i < head.len() && head[i].0 == a;
                assert(s[i].0 == s[s.len() - 1].0);
            }
        }
        lemma_map_of_drop_value(head, id);
        lemma_map_of_contains(head, a);
        lemma_filter_no_key(head, pred, a);
        let fh = head.filter(pred);
        if pred(s.last()) {
            assert(s.filter(pred) == fh.push(s.last()));
            assert(fh.push(s.last()).drop_last() =~= fh);
            assert(map_of(s.filter(pred)) == map_of(fh).insert(s.last().0, s.last().1));
            assert(map_of(s.filter(pred)) =~= goal);
        } else {
            assert(s.filter(pred) == fh);
            assert(map_of(s.filter(pred)) =~= goal);
        }
        assert(pairs_distinct(s.filter(pred))) by {
            if pred(s.last()) {
                let f = s.filter(pred);
                assert(f == fh.push(s.last()));
                assert forall|i: int, j: int| 0 <= i < j < f.len() implies f[i].0 != f[j].0 by {
                    if j == f.len() - 1 {
                        assert(f[i] == fh[i]);
                        assert(has_pair_key(fh, fh[i].0));
                        lemma_filter_member(head, pred, fh[i].0);
                    } else {
                        assert(f[i] == fh[i]);
                        assert(f[j] == fh[j]);
                    }
                }
            }
        }
    }
}

/// A key carried by no pair of `s` is carried by no pair of its filtering.
proof fn lemma_filter_no_key(
    s: Seq<(Seq<char>, Seq<char>)>,
    pred: spec_fn((Seq<char>, Seq<char>)) -> bool,
    k: Seq<char>,
)
    requires
        !has_pair_key(s, k),
    ensures
        !has_pair_key(s.filter(pred), k),
        pairs_distinct(s) ==> pairs_distinct(s.filter(pred)),
    decreases s.len(),
{
    reveal(Seq::filter);
    if s.len() > 0 {
        let head = s.drop_last();
        assert forall|kk: Seq<char>| !has_pair_key(s, kk) implies !has_pair_key(head, kk) by {
            if has_pair_key(head, kk) {
                let i = choose|i: int| 0 <= i < head.len() && head[i].0 == kk;
                assert(s[i].0 == kk);
            }
        }
        lemma_filter_no_key(head, pred, k);
        if pairs_distinct(s) {
            assert forall|kk: Seq<char>| has_pair_key(head, kk) implies kk != s.last().0 by {
                let i = choose|i: int| 0 <= i < head.len() && head[i].0 == kk;
                assert(s[i].0 == kk);
            }
            lemma_filter_member(head, pred, s.last().0);
        }
    }
}

/// Every key of a filtering is a key of the original sequence.
proof fn lemma_filter_member(
    s: Seq<(Seq<char>, Seq<char>)>,
    pred: spec_fn((Seq<char>, Seq<char>)) -> bool,
    k: Seq<char>,
)
    ensures
        has_pair_key(s.filter(pred), k) ==> has_pair_key(s, k),
    decreases s.len(),
{
    reveal(Seq::filter);
    if s.len() > 0 {
        let head = s.drop_last();
        lemma_filter_member(head, pred, k);
        if has_pair_key(s.filter(pred), k) {
            let f = s.filter(pred);
            let i = choose|i: int| 0 <= i < f.len() && f[i].0 == k;
            if pred(s.last()) && i == f.len() - 1 {
                assert(s[s.len() - 1].0 == k);
            } else {
                assert(head.filter(pred)[i] == f[i]);
                let j = choose|j: int| 0 <= j < head.len() && head[j].0 == k;
                assert(s[j].0 == k);
            }
        }
    }
}

/// Looks a lower-cased pattern up in the registry pairs.
#[verifier::loop_isolation(false)]
pub fn registry_get<'a>(games: &'a Vec<(String, String)>, l_path: &str) -> (r: Option<&'a String>)
    requires
        pairs_distinct(pair_models(games@)),
    ensures
        match r {
            Some(id) => map_of(pair_models(games@)).contains_key(l_path@) && id@ == map_of(
                pair_models(games@),
            )[l_path@],
            None => !map_of(pair_models(games@)).contains_key(l_path@),
        },
{
    let ghost m = pair_models(games@);
    let n = games.len();
    let mut i: usize = 0;
    while i < n
        invariant
            i <= n,
            n == games@.len(),
            pairs_distinct(m),
            m == pair_models(games@),
            forall|j: int| 0 <= j < i ==> m[j].0 != l_path@,
        decreases n - i,
    {
        if str_eq(games[i].0.as_str(), l_path) {
            proof {
                lemma_map_of_get(m, i as int);
            }
            return Some(&games[i].1);
        }
        i = i + 1;
    }
    proof {
        lemma_map_of_contains(m, l_path@);
    }
    None
}

/// Inserts a lower-cased pattern into the registry pairs, replacing the pair
/// with the same key if one is there.
#[verifier::loop_isolation(false)]
pub fn registry_insert(games: &mut Vec<(String, String)>, l_key: String, id: String)
    requires
        pairs_distinct(pair_models(old(games)@)),
    ensures
        pairs_distinct(pair_models(final(games)@)),
        map_of(pair_models(final(games)@)) == map_of(pair_models(old(games)@)).insert(l_key@, id@),
{
    let ghost m = pair_models(games@);
    let n = games.len();
    let mut i: usize = 0;
    while i < n
        invariant
            i <= n,
            n == games@.len(),
            games@ == old(games)@,
            pairs_distinct(m),
            m == pair_models(games@),
            forall|j: int| 0 <= j < i ==> m[j].0 != l_key@,
        decreases n - i,
    {
        if str_eq(games[i].0.as_str(), l_key.as_str()) {
            let ghost k = m[i as int].0;
            games.set(i, (l_key, id));
            proof {
                assert(pair_models(games@) =~= m.update(i as int, (k, id@)));
                lemma_map_of_update(m, i as int, id@);
                assert forall|a: int, b: int|
                    0 <= a < b < pair_models(games@).len() implies pair_models(
                    games@,
                )[a].0 != pair_models(games@)[b].0 by {
                    assert(pair_models(games@)[a].0 == m[a].0);
                    assert(pair_models(games@)[b].0 == m[b].0);
                }
            }
            return ;
        }
        i = i + 1;
    }
    games.push((l_key, id));
    proof {
        assert(pair_models(games@) =~= m.push((l_key@, id@)));
        assert(pair_models(games@).drop_last() =~= m);
        lemma_map_of_contains(m, l_key@);
        assert forall|a: int, b: int|
            0 <= a < b < pair_models(games@).len() implies pair_models(games@)[a].0 != pair_models(
            games@,
        )[b].0 by {
            if b < m.len() {
                assert(pair_models(games@)[a].0 == m[a].0);
                assert(pair_models(games@)[b].0 == m[b].0);
            } else {
                assert(pair_models(games@)[a].0 == m[a].0);
            }
        }
    }
}

/// Removes every pattern mapped to `id` from the registry pairs.
#[verifier::loop_isolation(false)]
pub fn registry_remove_id(games: &mut Vec<(String, String)>, id: &str)
    requires
        pairs_distinct(pair_models(old(games)@)),
    ensures
        pairs_distinct(pair_models(final(games)@)),
        map_of(pair_models(final(games)@)) == Map::<Seq<char>, Seq<char>>::new(
            |k: Seq<char>|
                map_of(pair_models(old(games)@)).contains_key(k) && map_of(
                    pair_models(old(games)@),
                )[k] != id@,
            |k: Seq<char>| map_of(pair_models(old(games)@))[k],
        ),
{
    let ghost m = pair_models(games@);
    let ghost pred = keep_other_ids(id@);
    let n = games.len();
    let mut kept: Vec<(String, String)> = Vec::new();
    let mut i: usize = 0;
    while i < n
        invariant
            i <= n,
            n == games@.len(),
            games@ == old(games)@,
            m == pair_models(games@),
            pair_models(kept@) == pair_models(games@.subrange(0, i as int)).filter(pred),
        decreases n - i,
    {
        let ghost prev = pair_models(kept@);
        if !str_eq(games[i].1.as_str(), id) {
            let pair = (games[i].0.clone(), games[i].1.clone());
            kept.push(pair);
            proof {
                reveal(Seq::filter);
                let ext = pair_models(games@.subrange(0, i + 1));
                assert(ext.drop_last() =~= pair_models(games@.subrange(0, i as int)));
                assert(ext.last() == (games@[i as int].0@, games@[i as int].1@));
                assert(pred(ext.last()));
                assert(pair_models(kept@) =~= prev.push(ext.last()));
                assert(pair_models(kept@) =~= ext.filter(pred));
            }
        } else {
            proof {
                reveal(Seq::filter);
                let ext = pair_models(games@.subrange(0, i + 1));
                assert(ext.drop_last() =~= pair_models(games@.subrange(0, i as int)));
                assert(ext.last() == (games@[i as int].0@, games@[i as int].1@));
                assert(!pred(ext.last()));
                assert(pair_models(kept@) =~= ext.filter(pred));
            }
        }
        i = i + 1;
    }
    proof {
        assert(games@.subrange(0, n as int) =~= games@);
        lemma_map_of_drop_value(m, id@);
    }
    *games = kept;
}

} // verus!

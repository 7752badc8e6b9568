//! Answering a query: the bucket filed under exactly the query, best rank
//! first, cut to a limit and resolved to display names.

use vstd::prelude::*;
use crate::catalog::{BoardGame, has_id, name_of_id, position_of_id};
use crate::index::{Entry, PrefixIndex, entries_resolve};
use crate::normalize::{keep_chars, kept_chars, lowercase_of};

verus! {

/// Inserts `e` after the last entry of `s` whose rank is at most `e`'s.
pub open spec fn insert_by_rank(s: Seq<Entry>, e: Entry) -> Seq<Entry>
    decreases s.len(),
{
    if s.len() == 0 {
        seq![e]
    } else if s.last().0 <= e.0 {
        s.push(e)
    } else {
        insert_by_rank(s.drop_last(), e).push(s.last())
    }
}

/// The stable sort of `s` by ascending rank: entries of equal rank keep their order.
pub open spec fn sort_by_rank(s: Seq<Entry>) -> Seq<Entry>
    decreases s.len(),
{
    if s.len() == 0 {
        seq![]
    } else {
        insert_by_rank(sort_by_rank(s.drop_last()), s.last())
    }
}

/// Ranks never decrease along `s`.
pub open spec fn ranks_ascending(s: Seq<Entry>) -> bool {
    forall|i: int, j: int| 0 <= i < j < s.len() ==> s[i].0 <= s[j].0
}

/// The entries that a query for `key` yields: the bucket under exactly `key`,
/// sorted by rank and cut to `limit`; none where no bucket has that key.
pub open spec fn suggested_entries(m: Map<Seq<char>, Seq<Entry>>, key: Seq<char>, limit: nat) -> Seq<
    Entry,
> {
    if m.contains_key(key) {
        let s = sort_by_rank(m[key]);
        if s.len() <= limit { s } else { s.take(limit as int) }
    } else {
        seq![]
    }
}

/// The display names that a query for `key` yields.
pub open spec fn suggestions(
    m: Map<Seq<char>, Seq<Entry>>,
    c: Seq<BoardGame>,
    key: Seq<char>,
    limit: nat,
) -> Seq<Seq<char>> {
    suggested_entries(m, key, limit).map_values(|e: Entry| name_of_id(c, e.1))
}

proof fn lemma_insert_at(s: Seq<Entry>, e: Entry, j: int)
    requires
        0 <= j <= s.len(),
        forall|k: int| j <= k < s.len() ==> s[k].0 > e.0,
        j > 0 ==> s[j - 1].0 <= e.0,
    ensures
        insert_by_rank(s, e) == s.insert(j, e),
    decreases s.len(),
{
    if s.len() == 0 {
        assert(s.insert(j, e) =~= seq![e]);
    } else if j == s.len() {
        assert(s.insert(j, e) =~= s.push(e));
    } else {
        lemma_insert_at(s.drop_last(), e, j);
        assert(s.drop_last().insert(j, e).push(s.last()) =~= s.insert(j, e));
    }
}

proof fn lemma_insert_len(s: Seq<Entry>, e: Entry)
    ensures
        insert_by_rank(s, e).len() == s.len() + 1,
    decreases s.len(),
{
    if s.len() > 0 && s.last().0 > e.0 {
        lemma_insert_len(s.drop_last(), e);
    }
}

proof fn lemma_insert_members(s: Seq<Entry>, e: Entry, i: int)
    requires
        0 <= i < insert_by_rank(s, e).len(),
    ensures
        insert_by_rank(s, e)[i] == e || s.contains(insert_by_rank(s, e)[i]),
    decreases s.len(),
{
    lemma_insert_len(s, e);
    if s.len() > 0 && s.last().0 > e.0 {
        let t = s.drop_last();
        if i < s.len() as int {
            lemma_insert_members(t, e, i);
            if insert_by_rank(s, e)[i] != e {
                let k = choose|k: int| 0 <= k < t.len() && t[k] == insert_by_rank(s, e)[i];
                assert(s[k] == t[k]);
            }
        } else {
            assert(insert_by_rank(s, e)[i] == s[s.len() - 1]);
        }
    } else if s.len() > 0 {
        if i < s.len() {
            assert(s[i] == insert_by_rank(s, e)[i]);
        }
    }
}

proof fn lemma_insert_sorted(s: Seq<Entry>, e: Entry)
    requires
        ranks_ascending(s),
    ensures
        ranks_ascending(insert_by_rank(s, e)),
    decreases s.len(),
{
    lemma_insert_len(s, e);
    if s.len() > 0 && s.last().0 > e.0 {
        let t = s.drop_last();
        lemma_insert_sorted(t, e);
        lemma_insert_len(t, e);
        assert forall|i: int| 0 <= i < t.len() + 1 implies insert_by_rank(t, e)[i].0 <= s.last().0 by {
            lemma_insert_members(t, e, i);
        }
    }
}

proof fn lemma_sort_members(s: Seq<Entry>, i: int)
    requires
        0 <= i < sort_by_rank(s).len(),
    ensures
        s.contains(sort_by_rank(s)[i]),
    decreases s.len(),
{
    if s.len() > 0 {
        let t = s.drop_last();
        lemma_sort_len(t);
        lemma_insert_members(sort_by_rank(t), s.last(), i);
        let x = sort_by_rank(s)[i];
        if x == s.last() {
            assert(s[s.len() - 1] == x);
        } else {
            let k = choose|k: int| 0 <= k < sort_by_rank(t).len() && sort_by_rank(t)[k] == x;
            lemma_sort_members(t, k);
            let q = choose|q: int| 0 <= q < t.len() && t[q] == x;
            assert(s[q] == x);
        }
    }
}

/// A stable sort by rank leaves ranks ascending.
pub proof fn lemma_sort_ascending(s: Seq<Entry>)
    ensures
        ranks_ascending(sort_by_rank(s)),
    decreases s.len(),
{
    if s.len() > 0 {
        lemma_sort_ascending(s.drop_last());
        lemma_insert_sorted(sort_by_rank(s.drop_last()), s.last());
    }
}

proof fn lemma_sort_len(s: Seq<Entry>)
    ensures
        sort_by_rank(s).len() == s.len(),
    decreases s.len(),
{
    if s.len() > 0 {
        lemma_sort_len(s.drop_last());
        lemma_insert_len(sort_by_rank(s.drop_last()), s.last());
    }
}

/// Inserting into a sorted sequence and cutting to `n` entries only depends on
/// its first `n` entries.
proof fn lemma_insert_take(s: Seq<Entry>, e: Entry, n: int)
    requires
        ranks_ascending(s),
        0 <= n,
    ensures
        insert_by_rank(s, e).take(n) == insert_by_rank(if s.len() <= n { s } else { s.take(n) }, e).take(
            n,
        ),
    decreases s.len(),
{
    if s.len() > n {
        let t = s.drop_last();
        assert(t.take(n) =~= s.take(n));
        lemma_insert_len(s, e);
        if s.last().0 <= e.0 {
            if n > 0 {
                assert(s.take(n).last().0 <= s.last().0);
            }
            assert(s.push(e).take(n) =~= s.take(n));
            assert(s.take(n).push(e).take(n) =~= s.take(n));
        } else {
            lemma_insert_len(t, e);
            lemma_insert_take(t, e, n);
            assert(insert_by_rank(t, e).push(s.last()).take(n) =~= insert_by_rank(t, e).take(n));
            if t.len() <= n {
                assert(t =~= t.take(n));
            }
        }
    }
}

/// The first `limit` entries of `s`, or all of them where there are fewer.
pub open spec fn cut(s: Seq<Entry>, limit: nat) -> Seq<Entry> {
    if s.len() <= limit { s } else { s.take(limit as int) }
}

/// The `limit` best-ranked entries of a bucket, best first, ties in bucket
/// order. Never holds more than `limit` entries at any time.
pub fn top_entries(bucket: &Vec<Entry>, limit: usize) -> (r: Vec<Entry>)
    ensures
        r@ == cut(sort_by_rank(bucket@), limit as nat),
        r@.len() <= limit,
        ranks_ascending(r@),
{
    let mut top: Vec<Entry> = Vec::new();
    let ghost b = bucket@;
    let ghost n = limit as int;
    assert(b.take(0) =~= seq![]);
    for i in 0..bucket.len()
        invariant
            b == bucket@,
            n == limit,
            top@ == cut(sort_by_rank(b.take(i as int)), limit as nat),
            top@.len() <= limit,
            ranks_ascending(top@),
    {
        let e = bucket[i];
        let ghost srt = sort_by_rank(b.take(i as int));
        proof {
            assert(b.take(i + 1).drop_last() =~= b.take(i as int));
            lemma_sort_ascending(b.take(i as int));
            lemma_insert_take(srt, e, n);
            lemma_sort_len(b.take(i as int));
            lemma_insert_len(srt, e);
            lemma_insert_len(top@, e);
        }
        let mut j: usize = top.len();
        while j > 0 && top[j - 1].0 > e.0
            invariant
                j <= top@.len(),
                forall|k: int| j <= k < top@.len() ==> top@[k].0 > e.0,
            decreases j,
        {
            j = j - 1;
        }
        let ghost old_top = top@;
        proof {
            lemma_insert_at(old_top, e, j as int);
            lemma_insert_sorted(old_top, e);
        }
        if j < limit {
            top.insert(j, e);
            if top.len() > limit {
                top.pop();
            }
            proof {
                assert(cut(old_top.insert(j as int, e), limit as nat) =~= top@);
            }
        } else {
            assert(old_top.insert(j as int, e).take(n) =~= old_top);
        }
        proof {
            assert(top@ =~= cut(insert_by_rank(old_top, e), limit as nat));
            assert(ranks_ascending(top@));
        }
    }
    assert(b.take(bucket.len() as int) =~= b);
    top
}

/// The suggestions for what the user has typed: the buffer gets the
/// normalization that index keys get (lowercased, then only alphanumerics and
/// ASCII whitespace kept) and is then looked up exactly as `suggest` does.
pub fn suggest_typed(index: &PrefixIndex, catalog: &[BoardGame], buffer: &str, limit: usize) -> (r:
    Vec<String>)
    requires
        index.wf(),
        entries_resolve(index@, catalog@),
    ensures
        r@.map_values(|t: String| t@) == suggestions(
            index@,
            catalog@,
            kept_chars(lowercase_of(buffer@)),
            limit as nat,
        ),
        r@.len() <= limit,
{
    let lower = buffer.to_lowercase();
    let key = keep_chars(lower.as_str());
    suggest(index, catalog, key.as_str(), limit)
}

/// A query never yields more names than its limit.
pub proof fn lemma_suggestions_bounded(
    m: Map<Seq<char>, Seq<Entry>>,
    c: Seq<BoardGame>,
    key: Seq<char>,
    limit: nat,
)
    ensures
        suggestions(m, c, key, limit).len() <= limit,
{
}

/// The entries behind a query's names come best rank first: ranks never
/// decrease along the result.
pub proof fn lemma_suggestions_ascending(m: Map<Seq<char>, Seq<Entry>>, key: Seq<char>, limit: nat)
    ensures
        ranks_ascending(suggested_entries(m, key, limit)),
        suggested_entries(m, key, limit).len() <= limit,
{
    if m.contains_key(key) {
        lemma_sort_ascending(m[key]);
    }
}

/// A query whose key has no bucket yields no names.
pub proof fn lemma_missing_key_empty(
    m: Map<Seq<char>, Seq<Entry>>,
    c: Seq<BoardGame>,
    key: Seq<char>,
    limit: nat,
)
    requires
        !m.contains_key(key),
    ensures
        suggestions(m, c, key, limit) == Seq::<Seq<char>>::empty(),
{
    assert(suggestions(m, c, key, limit) =~= Seq::<Seq<char>>::empty());
}

/// The display names for a query, best rank first: the bucket filed under
/// exactly `query` (no other key is consulted), stably sorted by ascending
/// rank, cut to `limit` entries and resolved against the catalog. A query with
/// no bucket, the empty query among them, yields no names.
pub fn suggest(index: &PrefixIndex, catalog: &[BoardGame], query: &str, limit: usize) -> (r: Vec<
    String,
>)
    requires
        index.wf(),
        entries_resolve(index@, catalog@),
    ensures
        r@.map_values(|t: String| t@) == suggestions(index@, catalog@, query@, limit as nat),
        r@.len() <= limit,
        !index@.contains_key(query@) ==> r@.len() == 0,
{
    match index.bucket(query) {
        None => {
            let r: Vec<String> = Vec::new();
            assert(r@.map_values(|t: String| t@) =~= suggestions(
                index@,
                catalog@,
                query@,
                limit as nat,
            ));
            r
        },
        Some(bucket) => {
            let top = top_entries(bucket, limit);
            let ghost want = suggestions(index@, catalog@, query@, limit as nat);
            proof {
                lemma_sort_len(bucket@);
            }
            let mut names: Vec<String> = Vec::new();
            for k in 0..top.len()
                invariant
                    top@ == suggested_entries(index@, query@, limit as nat),
                    want == suggestions(index@, catalog@, query@, limit as nat),
                    want.len() == top@.len(),
                    index@.contains_key(query@),
                    entries_resolve(index@, catalog@),
                    names@.len() == k,
                    forall|q: int| 0 <= q < k ==> names@[q]@ == want[q],
            {
                let ghost e = top@[k as int];
                proof {
                    lemma_sort_members(index@[query@], k as int);
                    let b = index@[query@];
                    let q = choose|q: int| 0 <= q < b.len() && b[q] == e;
                    assert(has_id(catalog@, b[q].1));
                }
                // Every filed identifier resolves, so the lookup always finds one.
                if let Some(p) = position_of_id(catalog, top[k].1) {
                    names.push(catalog[p].name.clone());
                }
            }
            assert(names@.map_values(|t: String| t@) =~= want);
            assert(top@.len() <= limit);
            names
        },
    }
}

} // verus!

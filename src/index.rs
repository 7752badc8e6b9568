//! The prefix index: every non-empty prefix of every normalized token of a
//! game's name, mapped to the (rank, identifier) pairs that contributed it.

use vstd::prelude::*;
use vstd::hash_map::StringHashMap;
use crate::catalog::{BoardGame, has_id};
use crate::normalize::{name_tokens, normalize_tokens, string_views};

verus! {

/// One bucket entry: a game's rank and its identifier.
pub type Entry = (u32, u32);

/// A prefix key paired with the entry it files.
pub type Filing = (Seq<char>, Entry);

/// The filings of one token: its prefixes of length 1 up to its length, shortest first.
pub open spec fn prefix_filings(tok: Seq<char>, e: Entry) -> Seq<Filing> {
    Seq::new(tok.len(), |l: int| (tok.take(l + 1), e))
}

/// The filings of a sequence of tokens, token by token.
pub open spec fn token_filings(toks: Seq<Seq<char>>, e: Entry) -> Seq<Filing>
    decreases toks.len(),
{
    if toks.len() == 0 {
        seq![]
    } else {
        token_filings(toks.drop_last(), e) + prefix_filings(toks.last(), e)
    }
}

/// The filings of one game: those of its name's tokens, with its rank and identifier.
pub open spec fn game_filings(g: BoardGame) -> Seq<Filing> {
    token_filings(name_tokens(g.name@), (g.rank, g.id))
}

/// The filings of a catalog, game by game in catalog order.
pub open spec fn catalog_filings(c: Seq<BoardGame>) -> Seq<Filing>
    decreases c.len(),
{
    if c.len() == 0 {
        seq![]
    } else {
        catalog_filings(c.drop_last()) + game_filings(c.last())
    }
}

/// The entries filed under `key`, in filing order.
pub open spec fn bucket_of(fs: Seq<Filing>, key: Seq<char>) -> Seq<Entry>
    decreases fs.len(),
{
    if fs.len() == 0 {
        seq![]
    } else if fs.last().0 == key {
        bucket_of(fs.drop_last(), key).push(fs.last().1)
    } else {
        bucket_of(fs.drop_last(), key)
    }
}

/// The index that a sequence of filings makes: a key for each prefix filed at
/// least once, holding its entries in filing order.
pub open spec fn index_of_filings(fs: Seq<Filing>) -> Map<Seq<char>, Seq<Entry>> {
    Map::new(|k: Seq<char>| bucket_of(fs, k).len() > 0, |k: Seq<char>| bucket_of(fs, k))
}

/// The index built from a catalog.
pub open spec fn index_of_catalog(c: Seq<BoardGame>) -> Map<Seq<char>, Seq<Entry>> {
    index_of_filings(catalog_filings(c))
}

/// Every identifier filed in the index names a record of the catalog.
pub open spec fn entries_resolve(m: Map<Seq<char>, Seq<Entry>>, c: Seq<BoardGame>) -> bool {
    forall|k: Seq<char>, i: int|
        #[trigger] m.contains_key(k) && 0 <= i < m[k].len() ==> has_id(c, #[trigger] m[k][i].1)
}

/// Files one more entry under `k`.
pub open spec fn file_entry(m: Map<Seq<char>, Seq<Entry>>, k: Seq<char>, e: Entry) -> Map<
    Seq<char>,
    Seq<Entry>,
> {
    if m.contains_key(k) {
        m.insert(k, m[k].push(e))
    } else {
        m.insert(k, seq![e])
    }
}

proof fn lemma_file_entry(fs: Seq<Filing>, k: Seq<char>, e: Entry)
    ensures
        index_of_filings(fs.push((k, e))) == file_entry(index_of_filings(fs), k, e),
{
    let fs2 = fs.push((k, e));
    assert(fs2.drop_last() =~= fs);
    assert forall|q: Seq<char>| #[trigger] bucket_of(fs2, q) == if q == k {
        bucket_of(fs, q).push(e)
    } else {
        bucket_of(fs, q)
    } by {}
    if bucket_of(fs, k).len() == 0 {
        assert(bucket_of(fs, k).push(e) =~= seq![e]);
    }
    assert(index_of_filings(fs2) =~= file_entry(index_of_filings(fs), k, e));
}

/// A read-only map from prefix keys to buckets of (rank, identifier) entries.
pub struct PrefixIndex {
    slots: StringHashMap<usize>,
    buckets: Vec<Vec<Entry>>,
}

impl View for PrefixIndex {
    type V = Map<Seq<char>, Seq<Entry>>;

    closed spec fn view(&self) -> Map<Seq<char>, Seq<Entry>> {
        Map::new(
            |k: Seq<char>| self.slots@.contains_key(k),
            |k: Seq<char>| self.buckets@[self.slots@[k] as int]@,
        )
    }
}

impl PrefixIndex {
    /// Each key has a bucket of its own.
    pub closed spec fn wf(&self) -> bool {
        &&& forall|k: Seq<char>| #[trigger]
            self.slots@.contains_key(k) ==> self.slots@[k] < self.buckets@.len()
        &&& forall|k1: Seq<char>, k2: Seq<char>|
            #[trigger] self.slots@.contains_key(k1) && #[trigger] self.slots@.contains_key(k2)
                && k1 != k2 ==> self.slots@[k1] != self.slots@[k2]
    }

    fn empty() -> (r: Self)
        ensures
            r.wf(),
            r@ == Map::<Seq<char>, Seq<Entry>>::empty(),
    {
        let r = PrefixIndex { slots: StringHashMap::new(), buckets: Vec::new() };
        assert(r@ =~= Map::<Seq<char>, Seq<Entry>>::empty());
        r
    }

    fn file(&mut self, key: String, e: Entry)
        requires
            old(self).wf(),
        ensures
            final(self).wf(),
            final(self)@ == file_entry(old(self)@, key@, e),
    {
        match self.slots.get(key.as_str()) {
            Some(slot) => {
                let slot = *slot;
                self.buckets[slot].push(e);
                assert(self@ =~= file_entry(old(self)@, key@, e));
            },
            None => {
                let slot = self.buckets.len();
                self.buckets.push(vec![e]);
                let ghost k = key@;
                self.slots.insert(key, slot);
                assert(self.buckets@[slot as int]@ =~= seq![e]);
                assert forall|q: Seq<char>| #[trigger] self.slots@.contains_key(q) && q != k implies
                    self.slots@[q] == old(self).slots@[q] && self.slots@[q] < slot by {}
                assert(self@ =~= file_entry(old(self)@, key@, e));
            },
        }
    }

    /// Looks up the bucket filed under exactly `key`.
    pub fn bucket(&self, key: &str) -> (r: Option<&Vec<Entry>>)
        requires
            self.wf(),
        ensures
            match r {
                Some(b) => self@.contains_key(key@) && b@ == self@[key@],
                None => !self@.contains_key(key@),
            },
    {
        match self.slots.get(key) {
            Some(slot) => Some(&self.buckets[*slot]),
            None => None,
        }
    }
}

impl PrefixIndex {
    fn file_token(&mut self, tok: &String, e: Entry, Ghost(fs): Ghost<Seq<Filing>>)
        requires
            old(self).wf(),
            old(self)@ == index_of_filings(fs),
        ensures
            final(self).wf(),
            final(self)@ == index_of_filings(fs + prefix_filings(tok@, e)),
    {
        let mut prefix = String::new();
        for c in it: tok.chars()
            invariant
                it.seq() == tok@,
                self.wf(),
                prefix@ == tok@.take(it.index() as int),
                self@ == index_of_filings(fs + prefix_filings(tok@, e).take(it.index() as int)),
        {
            let ghost l = it.index() as int;
            prefix.push(c);
            proof {
                let pf = prefix_filings(tok@, e);
                assert(prefix@ =~= tok@.take(l + 1));
                assert(fs + pf.take(l + 1) =~= (fs + pf.take(l)).push((prefix@, e)));
                lemma_file_entry(fs + pf.take(l), prefix@, e);
            }
            self.file(prefix.clone(), e);
        }
        assert(prefix_filings(tok@, e).take(tok@.len() as int) =~= prefix_filings(tok@, e));
    }

    fn file_game(&mut self, g: &BoardGame, Ghost(fs): Ghost<Seq<Filing>>)
        requires
            old(self).wf(),
            old(self)@ == index_of_filings(fs),
        ensures
            final(self).wf(),
            final(self)@ == index_of_filings(fs + game_filings(*g)),
    {
        let toks = normalize_tokens(g.name.as_str());
        let ghost ts = string_views(toks@);
        let e: Entry = (g.rank, g.id);
        assert(ts.take(0) =~= seq![]);
        assert(fs + token_filings(seq![], e) =~= fs);
        for j in 0..toks.len()
            invariant
                ts == string_views(toks@),
                ts == name_tokens(g.name@),
                e == (g.rank, g.id),
                self.wf(),
                self@ == index_of_filings(fs + token_filings(ts.take(j as int), e)),
        {
            proof {
                assert(ts.take(j + 1).drop_last() =~= ts.take(j as int));
                assert(fs + token_filings(ts.take(j + 1), e) =~= (fs + token_filings(
                    ts.take(j as int),
                    e,
                )) + prefix_filings(toks@[j as int]@, e));
            }
            self.file_token(&toks[j], e, Ghost(fs + token_filings(ts.take(j as int), e)));
        }
        assert(ts.take(toks.len() as int) =~= ts);
    }
}

/// Builds the prefix index of a catalog. Every game, in catalog order, files
/// its rank and identifier under each non-empty prefix of each of its name's
/// tokens; a bucket keeps its entries in that order. The empty string is never
/// a key.
pub fn build_search_map(boardgame_data: &[BoardGame]) -> (r: PrefixIndex)
    ensures
        r.wf(),
        r@ == index_of_catalog(boardgame_data@),
        entries_resolve(r@, boardgame_data@),
{
    let mut idx = PrefixIndex::empty();
    let ghost c = boardgame_data@;
    assert(index_of_filings(seq![]) =~= Map::<Seq<char>, Seq<Entry>>::empty());
    assert(c.take(0) =~= seq![]);
    for i in 0..boardgame_data.len()
        invariant
            c == boardgame_data@,
            idx.wf(),
            idx@ == index_of_filings(catalog_filings(c.take(i as int))),
    {
        proof {
            assert(c.take(i + 1).drop_last() =~= c.take(i as int));
        }
        idx.file_game(&boardgame_data[i], Ghost(catalog_filings(c.take(i as int))));
    }
    assert(c.take(c.len() as int) =~= c);
    proof {
        lemma_catalog_resolves(c);
    }
    idx
}

proof fn lemma_bucket_source(fs: Seq<Filing>, k: Seq<char>, i: int)
    requires
        0 <= i < bucket_of(fs, k).len(),
    ensures
        exists|j: int| 0 <= j < fs.len() && #[trigger] fs[j] == (k, bucket_of(fs, k)[i]),
    decreases fs.len(),
{
    let t = fs.drop_last();
    if fs.last().0 == k && i == bucket_of(t, k).len() {
        assert(fs[fs.len() - 1] == (k, bucket_of(fs, k)[i]));
    } else {
        lemma_bucket_source(t, k, i);
        let j = choose|j: int| 0 <= j < t.len() && #[trigger] t[j] == (k, bucket_of(t, k)[i]);
        assert(fs[j] == t[j]);
    }
}

proof fn lemma_bucket_holds(fs: Seq<Filing>, j: int)
    requires
        0 <= j < fs.len(),
    ensures
        bucket_of(fs, fs[j].0).contains(fs[j].1),
    decreases fs.len(),
{
    let t = fs.drop_last();
    let k = fs[j].0;
    if j == fs.len() - 1 {
        assert(bucket_of(fs, k).last() == fs[j].1);
    } else {
        lemma_bucket_holds(t, j);
        assert(t[j] == fs[j]);
        let q = choose|q: int| 0 <= q < bucket_of(t, k).len() && bucket_of(t, k)[q] == fs[j].1;
        if fs.last().0 == k {
            assert(bucket_of(fs, k)[q] == fs[j].1);
        }
    }
}

proof fn lemma_token_filings_entry(toks: Seq<Seq<char>>, e: Entry, j: int)
    requires
        0 <= j < token_filings(toks, e).len(),
    ensures
        token_filings(toks, e)[j].1 == e,
    decreases toks.len(),
{
    if toks.len() > 0 {
        let a = token_filings(toks.drop_last(), e);
        if j < a.len() {
            lemma_token_filings_entry(toks.drop_last(), e, j);
        }
    }
}

proof fn lemma_catalog_filing_source(c: Seq<BoardGame>, j: int)
    requires
        0 <= j < catalog_filings(c).len(),
    ensures
        has_id(c, catalog_filings(c)[j].1.1),
    decreases c.len(),
{
    let t = c.drop_last();
    let a = catalog_filings(t);
    if j < a.len() {
        lemma_catalog_filing_source(t, j);
        let g = choose|g: int| 0 <= g < t.len() && t[g].id == a[j].1.1;
        assert(c[g] == t[g]);
    } else {
        let g = c.last();
        lemma_token_filings_entry(name_tokens(g.name@), (g.rank, g.id), j - a.len());
        assert(c[c.len() - 1].id == catalog_filings(c)[j].1.1);
    }
}

proof fn lemma_catalog_resolves(c: Seq<BoardGame>)
    ensures
        entries_resolve(index_of_catalog(c), c),
{
    let fs = catalog_filings(c);
    assert forall|k: Seq<char>, i: int|
        #[trigger] index_of_catalog(c).contains_key(k) && 0 <= i < index_of_catalog(c)[k].len()
        implies has_id(c, #[trigger] index_of_catalog(c)[k][i].1) by {
        lemma_bucket_source(fs, k, i);
        let j = choose|j: int| 0 <= j < fs.len() && #[trigger] fs[j] == (k, bucket_of(fs, k)[i]);
        lemma_catalog_filing_source(c, j);
    }
}

proof fn lemma_token_filing_present(toks: Seq<Seq<char>>, e: Entry, t: int, l: int)
    requires
        0 <= t < toks.len(),
        1 <= l <= toks[t].len(),
    ensures
        token_filings(toks, e).contains((toks[t].take(l), e)),
    decreases toks.len(),
{
    let a = token_filings(toks.drop_last(), e);
    if t == toks.len() - 1 {
        assert(token_filings(toks, e)[a.len() + l - 1] == (toks[t].take(l), e));
    } else {
        lemma_token_filing_present(toks.drop_last(), e, t, l);
        let j = choose|j: int| 0 <= j < a.len() && a[j] == (toks[t].take(l), e);
        assert(token_filings(toks, e)[j] == a[j]);
    }
}

proof fn lemma_catalog_filing_present(c: Seq<BoardGame>, g: int, x: Filing)
    requires
        0 <= g < c.len(),
        game_filings(c[g]).contains(x),
    ensures
        catalog_filings(c).contains(x),
    decreases c.len(),
{
    let t = c.drop_last();
    let a = catalog_filings(t);
    if g == c.len() - 1 {
        let j = choose|j: int| 0 <= j < game_filings(c[g]).len() && game_filings(c[g])[j] == x;
        assert(catalog_filings(c)[a.len() + j] == x);
    } else {
        assert(t[g] == c[g]);
        lemma_catalog_filing_present(t, g, x);
        let j = choose|j: int| 0 <= j < a.len() && a[j] == x;
        assert(catalog_filings(c)[j] == a[j]);
    }
}

/// Every non-empty prefix of every normalized token of a game's name is a key
/// of the index built from its catalog, and the bucket under it holds the
/// game's rank and identifier.
pub proof fn lemma_every_prefix_indexed(c: Seq<BoardGame>, g: int, t: int, l: int)
    requires
        0 <= g < c.len(),
        0 <= t < name_tokens(c[g].name@).len(),
        1 <= l <= name_tokens(c[g].name@)[t].len(),
    ensures
        index_of_catalog(c).contains_key(name_tokens(c[g].name@)[t].take(l)),
        index_of_catalog(c)[name_tokens(c[g].name@)[t].take(l)].contains((c[g].rank, c[g].id)),
{
    let toks = name_tokens(c[g].name@);
    let e = (c[g].rank, c[g].id);
    let x = (toks[t].take(l), e);
    lemma_token_filing_present(toks, e, t, l);
    lemma_catalog_filing_present(c, g, x);
    let fs = catalog_filings(c);
    let j = choose|j: int| 0 <= j < fs.len() && fs[j] == x;
    lemma_bucket_holds(fs, j);
}

/// Two indexes built from the same catalog hold the same keys, and under each
/// key the same multiset of (rank, identifier) entries.
pub proof fn lemma_build_deterministic(c: Seq<BoardGame>, a: PrefixIndex, b: PrefixIndex)
    requires
        a@ == index_of_catalog(c),
        b@ == index_of_catalog(c),
    ensures
        a@.dom() == b@.dom(),
        forall|k: Seq<char>| #[trigger]
            a@.contains_key(k) ==> a@[k].to_multiset() == b@[k].to_multiset(),
{
}

} // verus!

//! A small fixed list of titles with a substring matcher over it, usable as a
//! suggestion source before any catalog is loaded.

use vstd::prelude::*;
use crate::normalize::lowercase_of;
use crate::normalize::string_views;

verus! {

/// Most names that `game_suggestor` returns.
pub const SAMPLE_LIMIT: usize = 5;

/// Whether `needle` occurs in `hay` as a contiguous run.
pub open spec fn has_substring(hay: Seq<char>, needle: Seq<char>) -> bool {
    exists|i: int|
        0 <= i && i + needle.len() <= hay.len() && #[trigger] hay.subrange(i, i + needle.len())
            == needle
}

/// The names of `list` whose lowercase form contains `q`, in list order.
pub open spec fn names_containing(list: Seq<Seq<char>>, q: Seq<char>) -> Seq<Seq<char>>
    decreases list.len(),
{
    if list.len() == 0 {
        seq![]
    } else {
        names_containing(list.drop_last(), q) + if has_substring(lowercase_of(list.last()), q) {
            seq![list.last()]
        } else {
            seq![]
        }
    }
}

/// The first `n` items of `s`, or all of them where there are fewer.
pub open spec fn first_n(s: Seq<Seq<char>>, n: nat) -> Seq<Seq<char>> {
    if s.len() <= n { s } else { s.take(n as int) }
}

/// The characters of a string, in order.
pub fn chars_of(s: &str) -> (r: Vec<char>)
    ensures
        r@ == s@,
{
    let mut r: Vec<char> = Vec::new();
    for c in it: s.chars()
        invariant
            it.seq() == s@,
            r@ == s@.take(it.index() as int),
    {
        r.push(c);
        assert(r@ =~= s@.take(it.index() as int + 1));
    }
    assert(s@.take(s@.len() as int) =~= s@);
    r
}

/// Whether `needle` occurs in `hay`; the empty needle occurs everywhere.
pub fn contains_chars(hay: &Vec<char>, needle: &Vec<char>) -> (r: bool)
    ensures
        r == has_substring(hay@, needle@),
{
    if needle.len() > hay.len() {
        return false;
    }
    let n = needle.len();
    let last = hay.len() - n;
    let mut i: usize = 0;
    while i <= last
        invariant
            n == needle@.len(),
            last + n == hay@.len(),
            i <= last,
            forall|p: int| 0 <= p < i ==> #[trigger] hay@.subrange(p, p + n) != needle@,
        decreases last + 1 - i,
    {
        let mut k: usize = 0;
        let mut same = true;
        while same && k < n
            invariant
                i + n <= hay.len(),
                k <= n,
                n == needle@.len(),
                forall|q: int| 0 <= q < k ==> hay@[i + q] == needle@[q],
                !same ==> k < n && hay@[i + k] != needle@[k as int],
            decreases n - k + if same { 1int } else { 0int },
        {
            if hay[i + k] == needle[k] {
                k = k + 1;
            } else {
                same = false;
            }
        }
        if same {
            assert(hay@.subrange(i as int, i + n) =~= needle@);
            return true;
        }
        assert(hay@.subrange(i as int, i + n)[k as int] != needle@[k as int]);
        if i == last {
            return false;
        }
        i = i + 1;
    }
    false
}

/// The titles of the fixed list, in order.
pub open spec fn sample_titles() -> Seq<Seq<char>> {
    seq!["Castles of Burgundy"@, "Carcassonne"@, "That's Pretty Clever"@]
}

/// The fixed list of titles.
pub fn get_game_list() -> (r: &'static [&'static str])
    ensures
        r@.map_values(|t: &str| t@) == sample_titles(),
{
    let r: &'static [&'static str] = &["Castles of Burgundy", "Carcassonne", "That's Pretty Clever"];
    assert(r@.map_values(|t: &str| t@) =~= sample_titles());
    r
}

/// Up to five titles of the fixed list, in list order, whose lowercase form
/// contains the lowercased input.
pub fn game_suggestor(input: &str) -> (r: Vec<String>)
    ensures
        string_views(r@) == first_n(
            names_containing(sample_titles(), lowercase_of(input@)),
            SAMPLE_LIMIT as nat,
        ),
        r@.len() <= SAMPLE_LIMIT,
{
    let lowered = input.to_lowercase();
    let q = chars_of(lowered.as_str());
    let list = get_game_list();
    let ghost names = list@.map_values(|t: &str| t@);
    let mut out: Vec<String> = Vec::new();
    assert(names.take(0) =~= seq![]);
    for i in 0..list.len()
        invariant
            names == list@.map_values(|t: &str| t@),
            q@ == lowercase_of(input@),
            string_views(out@) == first_n(names_containing(names.take(i as int), q@), SAMPLE_LIMIT as nat),
    {
        let low = list[i].to_lowercase();
        let hay = chars_of(low.as_str());
        let m = contains_chars(&hay, &q);
        proof {
            assert(names.take(i + 1).drop_last() =~= names.take(i as int));
            assert(names.take(i + 1).last() == list@[i as int]@);
        }
        if m && out.len() < SAMPLE_LIMIT {
            let ghost before = out@;
            out.push(list[i].to_owned());
            assert(string_views(out@) =~= string_views(before).push(list@[i as int]@));
        }
        assert(string_views(out@) =~= first_n(
            names_containing(names.take(i + 1), q@),
            SAMPLE_LIMIT as nat,
        ));
    }
    assert(names.take(list.len() as int) =~= names);
    out
}

} // verus!

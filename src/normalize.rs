//! Turning a display name into the lowercase tokens that the index is keyed by.

use vstd::prelude::*;

verus! {

/// What `str::to_lowercase` makes of a sequence of characters.
pub uninterp spec fn lowercase_of(s: Seq<char>) -> Seq<char>;

/// Whether `char::is_alphanumeric` holds of a character.
pub uninterp spec fn alphanumeric(c: char) -> bool;

/// ASCII whitespace: space, tab, line feed, form feed or carriage return.
pub open spec fn ascii_whitespace(c: char) -> bool {
    c == ' ' || c == '\t' || c == '\n' || c == '\x0C' || c == '\r'
}

/// Relies on `str::to_lowercase`: the lowercase mapping depends on the characters alone.
pub assume_specification[ str::to_lowercase ](s: &str) -> (r: String)
    ensures
        r@ == lowercase_of(s@),
;

/// Relies on `char::is_alphanumeric`: a property of the character alone.
pub assume_specification[ char::is_alphanumeric ](c: char) -> (r: bool)
    ensures
        r == alphanumeric(c),
;


/// Relies on `String::push`: appends one character.
pub assume_specification[ String::push ](s: &mut String, c: char)
    ensures
        final(s)@ == old(s)@.push(c),
;

/// Whether `c` is ASCII whitespace: space, tab, line feed, form feed or
/// carriage return.
pub fn is_ascii_ws(c: char) -> (r: bool)
    ensures
        r == ascii_whitespace(c),
{
    c == ' ' || c == '\t' || c == '\n' || c == '\x0C' || c == '\r'
}

/// A character survives normalization when it is alphanumeric or ASCII whitespace.
pub open spec fn kept(c: char) -> bool {
    alphanumeric(c) || ascii_whitespace(c)
}

/// The characters of `s` that survive normalization, in order.
pub open spec fn kept_chars(s: Seq<char>) -> Seq<char> {
    s.filter(|c: char| kept(c))
}

/// The whitespace-separated tokens of `s`, where `cur` is the part of a token
/// already read before `s`.
pub open spec fn split_from(s: Seq<char>, cur: Seq<char>) -> Seq<Seq<char>>
    decreases s.len(),
{
    if s.len() == 0 {
        if cur.len() == 0 { seq![] } else { seq![cur] }
    } else if ascii_whitespace(s[0]) {
        (if cur.len() == 0 { seq![] } else { seq![cur] }) + split_from(s.drop_first(), seq![])
    } else {
        split_from(s.drop_first(), cur.push(s[0]))
    }
}

/// The normalized tokens of a name: lowercased, filtered to alphanumerics and
/// ASCII whitespace, then split on ASCII whitespace.
pub open spec fn name_tokens(name: Seq<char>) -> Seq<Seq<char>> {
    split_from(kept_chars(lowercase_of(name)), seq![])
}

/// The views of a sequence of strings.
pub open spec fn string_views(v: Seq<String>) -> Seq<Seq<char>> {
    v.map_values(|t: String| t@)
}

proof fn lemma_filter_step(s: Seq<char>, i: int)
    requires
        0 <= i < s.len(),
    ensures
        kept_chars(s.skip(i)) == (if kept(s[i]) {
            seq![s[i]]
        } else {
            seq![]
        }) + kept_chars(s.skip(i + 1)),
{
    let f = |c: char| kept(c);
    assert(s.skip(i) =~= seq![s[i]] + s.skip(i + 1));
    Seq::filter_distributes_over_add(seq![s[i]], s.skip(i + 1), f);
    reveal_with_fuel(Seq::filter, 2);
    assert(seq![s[i]].drop_last() =~= Seq::<char>::empty());
}

/// Keeps the characters of `s` that survive normalization: the alphanumeric
/// ones and ASCII whitespace.
pub fn keep_chars(s: &str) -> (r: String)
    ensures
        r@ == kept_chars(s@),
{
    let mut out = String::new();
    assert(s@.skip(0) =~= s@);
    assert(kept_chars(s@.take(0)) =~= seq![]);
    for c in it: s.chars()
        invariant
            it.seq() == s@,
            out@ + kept_chars(s@.skip(it.index() as int)) == kept_chars(s@),
    {
        let ghost i = it.index() as int;
        proof {
            lemma_filter_step(s@, i);
        }
        if c.is_alphanumeric() || is_ascii_ws(c) {
            out.push(c);
        }
        assert(s@.skip(i + 1) == s@.skip(it.index() as int + 1));
    }
    proof {
        assert(s@.skip(s@.len() as int) =~= seq![]);
        assert(kept_chars(seq![]) =~= seq![]);
    }
    assert(out@ =~= kept_chars(s@));
    out
}

/// Splits an already lowercased text into its tokens: characters that are
/// neither alphanumeric nor ASCII whitespace are dropped, and the rest is split
/// on ASCII whitespace.
pub fn tokens_of_lowered(lower: &str) -> (r: Vec<String>)
    ensures
        string_views(r@) == split_from(kept_chars(lower@), seq![]),
{
    let ghost s = lower@;
    let mut out: Vec<String> = Vec::new();
    let mut cur = String::new();
    assert(s.skip(0) =~= s);
    for c in it: lower.chars()
        invariant
            it.seq() == s,
            s == lower@,
            string_views(out@) + split_from(kept_chars(s.skip(it.index() as int)), cur@)
                == split_from(kept_chars(s), seq![]),
    {
        let ghost i = it.index() as int;
        proof {
            lemma_filter_step(s, i);
        }
        let ws = is_ascii_ws(c);
        if c.is_alphanumeric() || ws {
            assert(kept(c));
            assert(kept_chars(s.skip(i)).drop_first() =~= kept_chars(s.skip(i + 1)));
            if ws {
                if !cur.as_str().is_empty() {
                    proof {
                        assert(string_views(out@.push(cur)) =~= string_views(out@) + seq![cur@]);
                    }
                    out.push(cur);
                }
                cur = String::new();
            } else {
                cur.push(c);
            }
        }
        assert(s.skip(i + 1) == s.skip(it.index() as int + 1));
    }
    proof {
        assert(s.skip(s.len() as int) =~= seq![]);
        assert(kept_chars(seq![]) =~= seq![]);
    }
    if !cur.as_str().is_empty() {
        proof {
            assert(string_views(out@.push(cur)) =~= string_views(out@) + seq![cur@]);
        }
        out.push(cur);
    }
    proof {
        assert(string_views(out@) =~= split_from(kept_chars(s), seq![]));
    }
    out
}

/// Splits a name into its normalized tokens, in order; a repeated word gives a
/// repeated token.
pub fn normalize_tokens(name: &str) -> (r: Vec<String>)
    ensures
        string_views(r@) == name_tokens(name@),
{
    let lower = name.to_lowercase();
    tokens_of_lowered(lower.as_str())
}

} // verus!

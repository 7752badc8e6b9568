//! The catalog's record: one board game as the ranking snapshot lists it.

use vstd::prelude::*;

verus! {

/// One record of the catalog.
///
/// The two averages are kept as the decimal text the snapshot wrote: nothing
/// here reads them, and keeping the text keeps them unchanged on a round trip.
#[derive(Clone, Debug)]
pub struct BoardGame {
    pub id: u32,
    pub name: String,
    pub year: u16,
    pub rank: u32,
    pub average_score: String,
    pub bayes_average: String,
    pub users_rated: u32,
    pub bgg_url: String,
    pub thumbnail_url: String,
}

/// Position of the first record with identifier `id`, or `c.len()` where none has it.
pub open spec fn first_with_id(c: Seq<BoardGame>, id: u32) -> int
    decreases c.len(),
{
    if c.len() == 0 {
        0
    } else if c[0].id == id {
        0
    } else {
        1 + first_with_id(c.drop_first(), id)
    }
}

/// Whether some record of the catalog has identifier `id`.
pub open spec fn has_id(c: Seq<BoardGame>, id: u32) -> bool {
    exists|i: int| 0 <= i < c.len() && c[i].id == id
}

/// The display name that identifier `id` resolves to: that of its first record.
pub open spec fn name_of_id(c: Seq<BoardGame>, id: u32) -> Seq<char> {
    c[first_with_id(c, id)].name@
}

proof fn lemma_first_with_id(c: Seq<BoardGame>, id: u32, k: int)
    requires
        0 <= k <= c.len(),
        forall|j: int| 0 <= j < k ==> c[j].id != id,
        k < c.len() ==> c[k].id == id,
    ensures
        first_with_id(c, id) == k,
    decreases c.len(),
{
    if c.len() > 0 && k > 0 {
        lemma_first_with_id(c.drop_first(), id, k - 1);
    }
}

/// Finds the position of the first record with identifier `id`.
pub fn position_of_id(catalog: &[BoardGame], id: u32) -> (r: Option<usize>)
    ensures
        match r {
            Some(k) => k == first_with_id(catalog@, id) && k < catalog@.len(),
            None => !has_id(catalog@, id) && first_with_id(catalog@, id) == catalog@.len(),
        },
{
    let mut k: usize = 0;
    while k < catalog.len()
        invariant
            k <= catalog@.len(),
            forall|j: int| 0 <= j < k ==> catalog@[j].id != id,
        decreases catalog@.len() - k,
    {
        if catalog[k].id == id {
            proof {
                lemma_first_with_id(catalog@, id, k as int);
            }
            return Some(k);
        }
        k = k + 1;
    }
    proof {
        lemma_first_with_id(catalog@, id, k as int);
    }
    None
}

} // verus!

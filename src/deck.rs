use vstd::prelude::*;
use rand::seq::SliceRandom;
use crate::card::{Card, DECK_SIZE};

verus! {

/// The 52 identities in increasing order.
pub open spec fn ordered_cards() -> Seq<Card> {
    Seq::new(52, |i: int| Card(i as u8))
}

/// A deck: a fixed ordering of the 52 cards and a cursor to the next card.
#[derive(Clone, Debug)]
pub struct Deck {
    pub list: Vec<Card>,
    pub pos: usize,
}

/// Relies on rand's `SliceRandom::shuffle` with `thread_rng`: it only swaps
/// elements, so the result is a permutation of the input.
#[verifier::external_body]
fn shuffle_cards(v: &mut Vec<Card>)
    ensures
        final(v)@.to_multiset() == old(v)@.to_multiset(),
{
    v.shuffle(&mut rand::thread_rng());
}

impl Deck {
    /// Each of the 52 cards occurs exactly once, and the cursor is in range.
    pub open spec fn wf(&self) -> bool {
        &&& self.list@.len() == 52
        &&& self.list@.to_multiset() == ordered_cards().to_multiset()
        &&& forall|k: int| 0 <= k < 52 ==> (#[trigger] self.list@[k]).valid()
        &&& self.pos <= 52
    }

    pub fn new_unshuffled() -> (d: Self)
        ensures
            d.wf(),
            d.pos == 0,
            d.list@ == ordered_cards(),
    {
        let mut list: Vec<Card> = Vec::new();
        let mut i: u8 = 0;
        while (i as usize) < DECK_SIZE
            invariant
                i <= 52,
                list@ == Seq::new(i as nat, |k: int| Card(k as u8)),
            decreases 52 - i,
        {
            list.push(Card(i));
            i = i + 1;
            assert(list@ =~= Seq::new(i as nat, |k: int| Card(k as u8)));
        }
        assert(list@ =~= ordered_cards());
        Deck { list, pos: 0 }
    }

    pub fn new_shuffled() -> (d: Self)
        ensures
            d.wf(),
            d.pos == 0,
    {
        let mut d = Self::new_unshuffled();
        shuffle_cards(&mut d.list);
        proof {
            broadcast use vstd::seq_lib::group_to_multiset_ensures;
            assert(d.list@.len() == d.list@.to_multiset().len());
            assert(ordered_cards().len() == ordered_cards().to_multiset().len());
            assert forall|k: int| 0 <= k < 52 implies (#[trigger] d.list@[k]).valid() by {
                assert(d.list@.contains(d.list@[k]));
                assert(ordered_cards().to_multiset().count(d.list@[k]) > 0);
                assert(ordered_cards().contains(d.list@[k]));
            }
        }
        d
    }

    pub fn draw(&mut self) -> (r: Option<Card>)
        requires
            old(self).pos <= old(self).list@.len(),
        ensures
            final(self).list == old(self).list,
            old(self).pos < old(self).list@.len() ==> r == Some(old(self).list@[old(self).pos as int])
                && final(self).pos == old(self).pos + 1,
            old(self).pos >= old(self).list@.len() ==> r.is_none() && final(self).pos == old(self).pos,
    {
        if self.pos >= self.list.len() {
            None
        } else {
            self.pos = self.pos + 1;
            Some(self.list[self.pos - 1])
        }
    }
}

/// Every well-formed deck, a freshly shuffled one included, holds each of the
/// 52 identities exactly once; drawing from position 0 hands out its cards in
/// order, so 52 draws give every card once and the next draw finds it empty.
pub proof fn lemma_deck_is_permutation(d: Deck)
    requires
        d.wf(),
    ensures
        d.list@.no_duplicates(),
        forall|id: u8| id < 52 ==> #[trigger] d.list@.to_multiset().count(Card(id)) == 1,
        forall|id: u8| id < 52 ==> #[trigger] d.list@.contains(Card(id)),
{
    broadcast use vstd::seq_lib::group_to_multiset_ensures;
    let o = ordered_cards();
    assert(o.no_duplicates());
    o.lemma_multiset_has_no_duplicates();
    assert forall|x: Card| o.to_multiset().contains(x) implies o.to_multiset().count(x) == 1 by {}
    d.list@.lemma_multiset_has_no_duplicates_conv();
    assert forall|id: u8| id < 52 implies #[trigger] d.list@.to_multiset().count(Card(id)) == 1 by {
        assert(o[id as int] == Card(id));
        assert(o.contains(Card(id)));
    }
    assert forall|id: u8| id < 52 implies #[trigger] d.list@.contains(Card(id)) by {
        assert(d.list@.to_multiset().count(Card(id)) == 1);
    }
}

} // verus!

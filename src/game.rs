use vstd::prelude::*;
use crate::card::Card;
use crate::deck::Deck;

verus! {

/// Why two cards match: a shared suit is reported before a shared rank.
#[derive(PartialEq, Eq, Structural, Clone, Copy, Debug)]
pub enum MatchType {
    Suit,
    Rank,
}

/// A candidate move: the index of the card that moves, and how many places
/// to the left it lands (1 or 3).
pub type Match = (usize, u8);

/// A card in the tableau with its cached match flags.
#[derive(Clone, Copy, Debug)]
pub struct PlacedCard {
    pub card: Card,
    pub matches_one: bool,
    pub matches_three: bool,
}

/// What `play_to_choice` stopped at.
#[derive(Debug)]
pub enum Choices {
    GameWon,
    GameLost,
    ChooseOne(Vec<Match>),
}

#[derive(Clone, Debug)]
pub struct Game {
    pub deck: Deck,
    pub choice_points: usize,
    pub tableau: Vec<PlacedCard>,
}

/// A snapshot of a game's cursor and tableau, taken at a decision point.
#[derive(Debug)]
pub struct SavedGame {
    pub pos: usize,
    pub tableau: Vec<PlacedCard>,
}

/// Two cards match when they share a suit or a rank.
pub open spec fn cards_match(a: Card, b: Card) -> bool {
    a.suit_spec() == b.suit_spec() || a.rank_spec() == b.rank_spec()
}

/// The flags at `i` agree with the cards one and three places to its left.
pub open spec fn flags_ok_at(t: Seq<PlacedCard>, i: int) -> bool {
    &&& t[i].matches_one == (i >= 1 && cards_match(t[i].card, t[i - 1].card))
    &&& t[i].matches_three == (i >= 3 && cards_match(t[i].card, t[i - 3].card))
}

/// All cards are valid and no flag is stale.
pub open spec fn tableau_ok(t: Seq<PlacedCard>) -> bool {
    &&& forall|i: int| 0 <= i < t.len() ==> (#[trigger] t[i]).card.valid()
    &&& forall|i: int| 0 <= i < t.len() ==> #[trigger] flags_ok_at(t, i)
}

/// The cards of a tableau, without their flags.
pub open spec fn cards(t: Seq<PlacedCard>) -> Seq<Card> {
    t.map_values(|p: PlacedCard| p.card)
}

/// The moves offered by one placed card at index `i`: distance 1 first.
pub open spec fn candidates_at(i: int, p: PlacedCard) -> Seq<Match> {
    (if p.matches_one { seq![(i as usize, 1u8)] } else { seq![] })
        + (if p.matches_three { seq![(i as usize, 3u8)] } else { seq![] })
}

/// Every set flag of the tableau as a move, from left to right.
pub open spec fn candidates(t: Seq<PlacedCard>) -> Seq<Match>
    decreases t.len(),
{
    if t.len() == 0 {
        seq![]
    } else {
        candidates(t.drop_last()) + candidates_at(t.len() - 1, t.last())
    }
}

/// A move that can be carried out on the tableau.
pub open spec fn valid_move(t: Seq<PlacedCard>, m: Match) -> bool {
    &&& m.0 < t.len()
    &&& m.1 == 1 || m.1 == 3
    &&& m.0 >= m.1
}

/// The cards after moving the card at `m.0` onto the one `m.1` places left.
pub open spec fn moved(c: Seq<Card>, m: Match) -> Seq<Card> {
    c.remove(m.0 as int).update(m.0 - m.1, c[m.0 as int])
}

/// The tableau that the cards make, each card carrying the flags it should.
pub open spec fn placed_flags(c: Seq<Card>) -> Seq<PlacedCard> {
    Seq::new(
        c.len(),
        |i: int|
            PlacedCard {
                card: c[i],
                matches_one: i >= 1 && cards_match(c[i], c[i - 1]),
                matches_three: i >= 3 && cards_match(c[i], c[i - 3]),
            },
    )
}

/// Forced play from cursor `pos` over the cards `c` of the tableau: deal
/// while no move is open, make a move while exactly one is open, and stop
/// when the deck is out with no move, or when several moves are open.
pub open spec fn settle(list: Seq<Card>, pos: nat, c: Seq<Card>) -> (nat, Seq<Card>)
    decreases list.len() - pos, c.len(),
{
    let m = candidates(placed_flags(c));
    if m.len() == 0 {
        if pos < list.len() {
            settle(list, pos + 1, c.push(list[pos as int]))
        } else {
            (pos, c)
        }
    } else if m.len() == 1 && valid_move(placed_flags(c), m[0]) {
        settle(list, pos, moved(c, m[0]))
    } else {
        (pos, c)
    }
}

/// Twice the cards left in the deck plus the cards in the tableau: each deal
/// and each move lowers it.
pub open spec fn weight(list: Seq<Card>, pos: nat, c: Seq<Card>) -> int {
    2 * (list.len() - pos) + c.len()
}

/// Forced play keeps the cursor in the deck and does not raise the weight.
pub proof fn lemma_settle_weight(list: Seq<Card>, pos: nat, c: Seq<Card>)
    requires
        pos <= list.len(),
    ensures
        settle(list, pos, c).0 <= list.len(),
        weight(list, settle(list, pos, c).0, settle(list, pos, c).1) <= weight(list, pos, c),
    decreases list.len() - pos, c.len(),
{
    let m = candidates(placed_flags(c));
    if m.len() == 0 {
        if pos < list.len() {
            lemma_settle_weight(list, pos + 1, c.push(list[pos as int]));
        }
    } else if m.len() == 1 && valid_move(placed_flags(c), m[0]) {
        lemma_settle_weight(list, pos, moved(c, m[0]));
    }
}

/// A tableau without stale flags is the one its cards make.
pub proof fn lemma_tableau_canonical(t: Seq<PlacedCard>)
    requires
        tableau_ok(t),
    ensures
        t == placed_flags(cards(t)),
{
    assert forall|i: int| 0 <= i < t.len() implies t[i] == #[trigger] placed_flags(cards(t))[i] by {
        assert(flags_ok_at(t, i));
    }
    assert(t =~= placed_flags(cards(t)));
}

/// Each candidate names a set flag of its card; there are at most two per
/// card, and on a consistent tableau each can be carried out.
pub proof fn lemma_candidates_valid(t: Seq<PlacedCard>)
    requires
        t.len() <= usize::MAX,
    ensures
        candidates(t).len() <= 2 * t.len(),
        forall|k: int| 0 <= k < candidates(t).len() ==> {
            let m = #[trigger] candidates(t)[k];
            &&& m.0 < t.len()
            &&& (m.1 == 1 && t[m.0 as int].matches_one) || (m.1 == 3 && t[m.0 as int].matches_three)
        },
        tableau_ok(t) ==> forall|k: int| 0 <= k < candidates(t).len()
            ==> valid_move(t, #[trigger] candidates(t)[k]),
    decreases t.len(),
{
    if t.len() > 0 {
        let s = t.drop_last();
        lemma_candidates_valid(s);
        let i = t.len() - 1;
        assert forall|k: int| 0 <= k < candidates(t).len() implies {
            let m = #[trigger] candidates(t)[k];
            &&& m.0 < t.len()
            &&& (m.1 == 1 && t[m.0 as int].matches_one) || (m.1 == 3 && t[m.0 as int].matches_three)
        } by {
            if k < candidates(s).len() {
                let m = candidates(s)[k];
                assert(candidates(t)[k] == m);
                assert(t[m.0 as int] == s[m.0 as int]);
            } else {
                let p = t.last();
                let j = k - candidates(s).len();
                assert(candidates(t)[k] == candidates_at(i, p)[j]);
                if p.matches_one && j == 0 {
                    assert(candidates_at(i, p)[j] == (i as usize, 1u8));
                } else {
                    assert(candidates_at(i, p)[j] == (i as usize, 3u8));
                }
            }
        }
        if tableau_ok(t) {
            assert forall|k: int| 0 <= k < candidates(t).len()
                implies valid_move(t, #[trigger] candidates(t)[k]) by {
                let m = candidates(t)[k];
                assert(flags_ok_at(t, m.0 as int));
            }
        }
    }
}


impl SavedGame {
    /// The snapshot can be restored onto a well-formed game.
    pub open spec fn wf(&self) -> bool {
        &&& self.pos <= 52
        &&& self.tableau@.len() <= self.pos
        &&& tableau_ok(self.tableau@)
    }
}

impl Game {
    /// The deck is well formed, no more cards lie out than were dealt, and
    /// every flag agrees with the cards.
    pub open spec fn wf(&self) -> bool {
        &&& self.deck.wf()
        &&& self.tableau@.len() <= self.deck.pos
        &&& tableau_ok(self.tableau@)
    }

    /// A game on a freshly shuffled deck.
    pub fn new() -> (g: Self)
        ensures
            g.wf(),
            g.deck.pos == 0,
            g.tableau@.len() == 0,
            g.choice_points == 0,
    {
        Self::with_deck(Deck::new_shuffled())
    }

    /// A game on the given deck, with an empty tableau.
    pub fn with_deck(deck: Deck) -> (g: Self)
        requires
            deck.wf(),
        ensures
            g.wf(),
            g.deck == deck,
            g.tableau@.len() == 0,
            g.choice_points == 0,
    {
        Game { deck, tableau: Vec::new(), choice_points: 0 }
    }

    pub fn save_game(&self) -> (s: SavedGame)
        requires
            self.wf(),
        ensures
            s.pos == self.deck.pos,
            s.tableau@ == self.tableau@,
            s.wf(),
    {
        let tableau = self.tableau.clone();
        assert(tableau@ =~= self.tableau@);
        SavedGame { pos: self.deck.pos, tableau }
    }

    pub fn restore(&mut self, saved: SavedGame)
        requires
            old(self).wf(),
            saved.wf(),
        ensures
            final(self).wf(),
            final(self).deck.list == old(self).deck.list,
            final(self).deck.pos == saved.pos,
            final(self).tableau@ == saved.tableau@,
            final(self).choice_points == old(self).choice_points,
    {
        self.deck.pos = saved.pos;
        self.tableau = saved.tableau;
    }

    pub fn deal_card(&mut self) -> (r: Option<()>)
        requires
            old(self).wf(),
        ensures
            final(self).wf(),
            final(self).deck.list == old(self).deck.list,
            final(self).choice_points == old(self).choice_points,
            old(self).deck.pos < 52 ==> r.is_some() && final(self).deck.pos == old(self).deck.pos + 1
                && final(self).tableau@.len() == old(self).tableau@.len() + 1
                && cards(final(self).tableau@) == cards(old(self).tableau@).push(
                old(self).deck.list@[old(self).deck.pos as int],
            ),
            old(self).deck.pos >= 52 ==> r.is_none() && *final(self) == *old(self),
    {
        let c = match self.deck.draw() {
            Some(c) => c,
            None => {
                return None;
            },
        };
        let ghost t0 = self.tableau@;
        self.tableau.push(PlacedCard { card: c, matches_one: false, matches_three: false });
        let n = self.tableau.len();
        self.check_matches_at(n - 1);
        proof {
            let t = self.tableau@;
            assert forall|i: int| 0 <= i < t.len() implies #[trigger] flags_ok_at(t, i) by {
                if i < n - 1 {
                    assert(flags_ok_at(t0, i));
                }
            }
            assert(cards(t) =~= cards(t0).push(c));
        }
        Some(())
    }

    /// Removes the card at `ix`; later cards shift left by one.
    pub fn remove_card(&mut self, ix: usize) -> (r: Card)
        requires
            old(self).wf(),
            ix < old(self).tableau@.len(),
        ensures
            final(self).wf(),
            final(self).deck == old(self).deck,
            final(self).choice_points == old(self).choice_points,
            r == old(self).tableau@[ix as int].card,
            final(self).tableau@.len() == old(self).tableau@.len() - 1,
            cards(final(self).tableau@) == cards(old(self).tableau@).remove(ix as int),
            forall|j: int| 0 <= j < ix ==> final(self).tableau@[j] == old(self).tableau@[j],
            forall|j: int| ix + 3 <= j < final(self).tableau@.len()
                ==> final(self).tableau@[j] == old(self).tableau@[j + 1],
    {
        let ghost t0 = self.tableau@;
        let c = self.tableau.remove(ix);
        proof {
            let t1 = self.tableau@;
            assert forall|j: int| 0 <= j < t1.len() && !(ix <= j < ix + 3)
                implies #[trigger] flags_ok_at(t1, j) by {
                if j < ix {
                    assert(flags_ok_at(t0, j));
                } else {
                    assert(flags_ok_at(t0, j + 1));
                }
            }
        }
        self.recheck_from(ix, 3);
        proof {
            assert(cards(self.tableau@) =~= cards(t0).remove(ix as int));
        }
        c.card
    }

    /// Puts `c` in place of the card at `ix`. The flags at `ix` to `ix + 3`
    /// are recomputed: the last of these has `ix` as its distance-three
    /// neighbour.
    pub fn place_card(&mut self, c: Card, ix: usize)
        requires
            old(self).wf(),
            ix < old(self).tableau@.len(),
            c.valid(),
        ensures
            final(self).wf(),
            final(self).deck == old(self).deck,
            final(self).choice_points == old(self).choice_points,
            final(self).tableau@.len() == old(self).tableau@.len(),
            cards(final(self).tableau@) == cards(old(self).tableau@).update(ix as int, c),
            forall|j: int| 0 <= j < ix ==> final(self).tableau@[j] == old(self).tableau@[j],
            forall|j: int| ix + 4 <= j < final(self).tableau@.len()
                ==> final(self).tableau@[j] == old(self).tableau@[j],
    {
        let ghost t0 = self.tableau@;
        self.tableau.set(ix, PlacedCard { card: c, matches_three: false, matches_one: false });
        proof {
            let t1 = self.tableau@;
            assert forall|j: int| 0 <= j < t1.len() && !(ix <= j < ix + 4)
                implies #[trigger] flags_ok_at(t1, j) by {
                assert(flags_ok_at(t0, j));
            }
        }
        self.recheck_from(ix, 4);
        proof {
            assert(cards(self.tableau@) =~= cards(t0).update(ix as int, c));
        }
    }

    /// Recomputes the flags at the `count` positions from `ix` on, the
    /// positions whose left neighbours change when the tableau changes at `ix`.
    fn recheck_from(&mut self, ix: usize, count: usize)
        requires
            old(self).deck.wf(),
            old(self).tableau@.len() <= old(self).deck.pos,
            ix <= old(self).tableau@.len(),
            count <= 4,
            forall|i: int| 0 <= i < old(self).tableau@.len() ==> (#[trigger] old(self).tableau@[i]).card.valid(),
            forall|j: int| 0 <= j < old(self).tableau@.len() && !(ix <= j < ix + count)
                ==> #[trigger] flags_ok_at(old(self).tableau@, j),
        ensures
            final(self).wf(),
            final(self).deck == old(self).deck,
            final(self).choice_points == old(self).choice_points,
            final(self).tableau@.len() == old(self).tableau@.len(),
            forall|j: int| 0 <= j < final(self).tableau@.len()
                ==> (#[trigger] final(self).tableau@[j]).card == old(self).tableau@[j].card,
            forall|j: int| 0 <= j < final(self).tableau@.len() && !(ix <= j < ix + count)
                ==> final(self).tableau@[j] == old(self).tableau@[j],
    {
        let mut k: usize = ix;
        while k < ix + count
            invariant
                ix <= k <= ix + count,
                count <= 4,
                ix <= self.tableau@.len() <= 52,
                self.deck == old(self).deck,
                self.choice_points == old(self).choice_points,
                self.tableau@.len() == old(self).tableau@.len(),
                forall|j: int| 0 <= j < self.tableau@.len()
                    ==> (#[trigger] self.tableau@[j]).card == old(self).tableau@[j].card,
                forall|i: int| 0 <= i < self.tableau@.len() ==> (#[trigger] self.tableau@[i]).card.valid(),
                forall|j: int| 0 <= j < self.tableau@.len() && !(ix <= j < k)
                    ==> self.tableau@[j] == old(self).tableau@[j],
                forall|j: int| 0 <= j < self.tableau@.len() && !(k <= j < ix + count)
                    ==> #[trigger] flags_ok_at(self.tableau@, j),
            decreases ix + count - k,
        {
            let ghost t0 = self.tableau@;
            self.check_matches_at(k);
            proof {
                let t1 = self.tableau@;
                assert forall|j: int| 0 <= j < t1.len() && !(k + 1 <= j < ix + count)
                    implies #[trigger] flags_ok_at(t1, j) by {
                    if j != k {
                        assert(flags_ok_at(t0, j));
                    }
                }
            }
            k = k + 1;
        }
    }

    /// Recomputes the flags of the card at `ix` against the cards one and
    /// three places to its left; nothing happens when `ix` is out of range.
    fn check_matches_at(&mut self, ix: usize)
        requires
            forall|i: int| 0 <= i < old(self).tableau@.len() ==> (#[trigger] old(self).tableau@[i]).card.valid(),
        ensures
            final(self).deck == old(self).deck,
            final(self).choice_points == old(self).choice_points,
            final(self).tableau@.len() == old(self).tableau@.len(),
            forall|j: int| 0 <= j < final(self).tableau@.len()
                ==> (#[trigger] final(self).tableau@[j]).card == old(self).tableau@[j].card,
            forall|j: int| 0 <= j < final(self).tableau@.len() && j != ix
                ==> final(self).tableau@[j] == old(self).tableau@[j],
            ix < old(self).tableau@.len() ==> flags_ok_at(final(self).tableau@, ix as int),
    {
        let n = self.tableau.len();
        if ix >= n {
            return;
        }
        let a = self.tableau[ix];
        let m1 = if ix >= 1 {
            Self::is_match(&a, &self.tableau[ix - 1]).is_some()
        } else {
            false
        };
        let m3 = if ix >= 3 {
            Self::is_match(&a, &self.tableau[ix - 3]).is_some()
        } else {
            false
        };
        self.tableau.set(ix, PlacedCard { card: a.card, matches_one: m1, matches_three: m3 });
    }

    pub fn find_matches(&mut self) -> (r: Vec<Match>)
        requires
            old(self).wf(),
        ensures
            *final(self) == *old(self),
            r@ == candidates(final(self).tableau@),
            r@.len() <= 2 * final(self).tableau@.len(),
            forall|k: int| 0 <= k < r@.len() ==> valid_move(final(self).tableau@, #[trigger] r@[k]),
    {
        let mut ans: Vec<Match> = Vec::new();
        let mut ix: usize = 0;
        let n = self.tableau.len();
        while ix < n
            invariant
                n == self.tableau@.len(),
                ix <= n,
                ans@ == candidates(self.tableau@.subrange(0, ix as int)),
            decreases n - ix,
        {
            let c = self.tableau[ix];
            let ghost before = ans@;
            if c.matches_one {
                ans.push((ix, 1));
            }
            if c.matches_three {
                ans.push((ix, 3));
            }
            proof {
                let sub = self.tableau@.subrange(0, ix + 1);
                assert(sub.drop_last() =~= self.tableau@.subrange(0, ix as int));
                assert(sub.last() == c);
                assert(ans@ =~= before + candidates_at(ix as int, c));
            }
            ix = ix + 1;
        }
        assert(self.tableau@.subrange(0, n as int) =~= self.tableau@);
        proof {
            lemma_candidates_valid(self.tableau@);
        }
        ans
    }

    /// Picks up the card at `m.0` and drops it onto the card `m.1` places to
    /// its left.
    fn make_match(&mut self, m: Match)
        requires
            old(self).wf(),
            valid_move(old(self).tableau@, m),
        ensures
            final(self).wf(),
            final(self).deck == old(self).deck,
            final(self).choice_points == old(self).choice_points,
            final(self).tableau@.len() == old(self).tableau@.len() - 1,
            cards(final(self).tableau@) == moved(cards(old(self).tableau@), m),
            forall|j: int| 0 <= j < final(self).tableau@.len() && j != m.0 - m.1
                ==> #[trigger] final(self).tableau@[j].card == (if j < m.0 {
                    old(self).tableau@[j].card
                } else {
                    old(self).tableau@[j + 1].card
                }),
    {
        let from = m.0;
        let d: usize = m.1 as usize;
        let to: usize = m.0 - d;
        let ghost c0 = cards(self.tableau@);
        let picked_up = self.remove_card(from);
        self.place_card(picked_up, to);
        proof {
            let c1 = cards(self.tableau@);
            assert(c1 =~= moved(c0, m));
            assert forall|j: int| 0 <= j < self.tableau@.len() && j != m.0 - m.1
                implies #[trigger] self.tableau@[j].card == (if j < m.0 {
                    old(self).tableau@[j].card
                } else {
                    old(self).tableau@[j + 1].card
                }) by {
                assert(c1[j] == self.tableau@[j].card);
                assert(c0[j] == old(self).tableau@[j].card);
                if j >= m.0 {
                    assert(c0[j + 1] == old(self).tableau@[j + 1].card);
                }
            }
        }
    }

    /// Carries out a move chosen at a decision point.
    pub fn make_choice(&mut self, m: Match)
        requires
            old(self).wf(),
            valid_move(old(self).tableau@, m),
        ensures
            final(self).wf(),
            final(self).deck == old(self).deck,
            final(self).choice_points == old(self).choice_points,
            final(self).tableau@.len() == old(self).tableau@.len() - 1,
            cards(final(self).tableau@) == moved(cards(old(self).tableau@), m),
            forall|j: int| 0 <= j < final(self).tableau@.len() && j != m.0 - m.1
                ==> #[trigger] final(self).tableau@[j].card == (if j < m.0 {
                    old(self).tableau@[j].card
                } else {
                    old(self).tableau@[j + 1].card
                }),
    {
        self.make_match(m);
    }

    /// Deals and makes forced moves until the deck is out and no move is
    /// left, or until more than one move is open.
    pub fn play_to_choice(&mut self) -> (r: Choices)
        requires
            old(self).wf(),
            old(self).choice_points < usize::MAX,
        ensures
            final(self).wf(),
            final(self).deck.list == old(self).deck.list,
            final(self).deck.pos >= old(self).deck.pos,
            (final(self).deck.pos as nat, cards(final(self).tableau@)) == settle(
                old(self).deck.list@,
                old(self).deck.pos as nat,
                cards(old(self).tableau@),
            ),
            match r {
                Choices::GameWon => {
                    &&& final(self).deck.pos == 52
                    &&& final(self).tableau@.len() == 1
                    &&& candidates(final(self).tableau@).len() == 0
                    &&& final(self).choice_points == old(self).choice_points
                },
                Choices::GameLost => {
                    &&& final(self).deck.pos == 52
                    &&& final(self).tableau@.len() != 1
                    &&& candidates(final(self).tableau@).len() == 0
                    &&& final(self).choice_points == old(self).choice_points
                },
                Choices::ChooseOne(c) => {
                    &&& c@ == candidates(final(self).tableau@)
                    &&& c@.len() >= 2
                    &&& forall|k: int| 0 <= k < c@.len() ==> valid_move(final(self).tableau@, #[trigger] c@[k])
                    &&& final(self).choice_points == old(self).choice_points + 1
                },
            },
    {
        loop
            invariant
                self.wf(),
                self.deck.list == old(self).deck.list,
                self.deck.pos >= old(self).deck.pos,
                self.choice_points == old(self).choice_points,
                old(self).choice_points < usize::MAX,
                settle(self.deck.list@, self.deck.pos as nat, cards(self.tableau@)) == settle(
                    old(self).deck.list@,
                    old(self).deck.pos as nat,
                    cards(old(self).tableau@),
                ),
            decreases 2 * (52 - self.deck.pos) + self.tableau@.len(),
        {
            proof {
                lemma_tableau_canonical(self.tableau@);
            }
            let choices = self.find_matches();
            let n = choices.len();
            if n == 0 {
                match self.deal_card() {
                    Some(_) => {},
                    None => {
                        if self.tableau.len() == 1 {
                            return Choices::GameWon;
                        } else {
                            return Choices::GameLost;
                        }
                    },
                }
            } else if n == 1 {
                let m = choices[0];
                self.make_match(m);
            } else {
                self.choice_points = self.choice_points + 1;
                return Choices::ChooseOne(choices);
            }
        }
    }

    pub fn is_match(a: &PlacedCard, b: &PlacedCard) -> (r: Option<MatchType>)
        requires
            a.card.valid(),
            b.card.valid(),
        ensures
            r.is_some() == cards_match(a.card, b.card),
            r == Some(MatchType::Suit) <==> a.card.suit_spec() == b.card.suit_spec(),
    {
        if a.card.suit() == b.card.suit() {
            Some(MatchType::Suit)
        } else if a.card.rank() == b.card.rank() {
            Some(MatchType::Rank)
        } else {
            None
        }
    }
}

} // verus!

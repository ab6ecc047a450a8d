use vstd::prelude::*;
use crate::card::Card;
use crate::deck::Deck;
use crate::game::{
    candidates, cards, lemma_settle_weight, lemma_tableau_canonical, moved, placed_flags, settle,
    valid_move, weight, Choices, Game, Match, SavedGame,
};

verus! {

/// The classification of one deal.
#[derive(PartialEq, Eq, Structural, Clone, Copy, Debug)]
pub enum Result {
    AlwaysWin,
    AlwaysLose,
    GaveUp,
    CanWin,
}

/// The default bound on decision points before a search gives up.
pub const MAX_CHOICE_POINTS: usize = 1_000_000;

/// The class of a deal whose explored branches include a win exactly when
/// `any_win` holds and a loss exactly when `any_loss` holds.
pub open spec fn classification(any_win: bool, any_loss: bool) -> Result {
    if !any_loss {
        Result::AlwaysWin
    } else if !any_win {
        Result::AlwaysLose
    } else {
        Result::CanWin
    }
}

/// What the search tallies: decision points, whether a branch was won, and
/// whether a branch was lost.
pub type Tally = (nat, bool, bool);

pub open spec fn combine(a: Tally, b: Tally) -> Tally {
    (a.0 + b.0, a.1 || b.1, a.2 || b.2)
}

/// The tally of the decision tree that grows from cursor `pos` and tableau
/// cards `c`: forced play first; at a decision point, one for the point and
/// the tallies of all its branches; at the end of a game, a win when one card
/// is left and a loss otherwise.
pub open spec fn explore(list: Seq<Card>, pos: nat, c: Seq<Card>) -> Tally
    decreases weight(list, pos, c), 1nat, 0nat,
{
    let s = settle(list, pos, c);
    let ms = candidates(placed_flags(s.1));
    if pos <= list.len() && s.0 <= list.len() && weight(list, s.0, s.1) <= weight(list, pos, c) {
        if ms.len() >= 2 {
            let ch = explore_children(list, s.0, s.1, ms.len());
            (ch.0 + 1, ch.1, ch.2)
        } else {
            (0, s.1.len() == 1, s.1.len() != 1)
        }
    } else {
        (0, false, false)
    }
}

/// The combined tallies of the branches for the first `k` moves open on
/// cards `c`.
pub open spec fn explore_children(list: Seq<Card>, pos: nat, c: Seq<Card>, k: nat) -> Tally
    decreases weight(list, pos, c), 0nat, k,
{
    let ms = candidates(placed_flags(c));
    if k == 0 || k > ms.len() || pos > list.len() || !valid_move(placed_flags(c), ms[k - 1]) {
        (0, false, false)
    } else {
        combine(
            explore_children(list, pos, c, (k - 1) as nat),
            explore(list, pos, moved(c, ms[k - 1])),
        )
    }
}

/// What a full search of the deal `list` from cursor `pos` reports with the
/// bound `cap`: it gives up, after `cap + 1` decision points, exactly when the
/// tree has more than `cap`; otherwise it reports their number and the class.
pub open spec fn search_outcome(list: Seq<Card>, pos: nat, cap: nat) -> (nat, Result) {
    let t = explore(list, pos, seq![]);
    if t.0 > cap {
        (cap + 1, Result::GaveUp)
    } else {
        (t.0, classification(t.1, t.2))
    }
}

/// The combined tallies of the branches still waiting on the stack.
pub open spec fn pending(list: Seq<Card>, s: Seq<(SavedGame, Match)>) -> Tally
    decreases s.len(),
{
    if s.len() == 0 {
        (0, false, false)
    } else {
        let e = s.last();
        combine(pending(list, s.drop_last()), explore(list, e.0.pos as nat, moved(cards(e.0.tableau@), e.1)))
    }
}

/// A tree without decision points is a single game: it is won or lost, not
/// both.
pub proof fn lemma_no_choice_single_outcome(list: Seq<Card>, pos: nat)
    requires
        pos <= list.len(),
    ensures
        explore(list, pos, seq![]).0 == 0 ==> (explore(list, pos, seq![]).1 != explore(list, pos, seq![]).2),
{
    lemma_settle_weight(list, pos, seq![]);
}

/// One step down the tree: forced play, then either a decision point with
/// its branches or the end of a game.
proof fn lemma_explore_unfold(list: Seq<Card>, pos: nat, c: Seq<Card>)
    requires
        pos <= list.len(),
    ensures
        ({
            let s = settle(list, pos, c);
            let ms = candidates(placed_flags(s.1));
            &&& s.0 <= list.len()
            &&& ms.len() >= 2 ==> explore(list, pos, c) == combine(
                (1, false, false),
                explore_children(list, s.0, s.1, ms.len()),
            )
            &&& ms.len() < 2 ==> explore(list, pos, c) == (0nat, s.1.len() == 1, s.1.len() != 1)
        }),
{
    lemma_settle_weight(list, pos, c);
}

/// Adding one more branch to a decision point's tally.
proof fn lemma_children_step(list: Seq<Card>, pos: nat, c: Seq<Card>, k: nat)
    requires
        pos <= list.len(),
        k < candidates(placed_flags(c)).len(),
        valid_move(placed_flags(c), candidates(placed_flags(c))[k as int]),
    ensures
        explore_children(list, pos, c, k + 1) == combine(
            explore_children(list, pos, c, k),
            explore(list, pos, moved(c, candidates(placed_flags(c))[k as int])),
        ),
{
}

/// The tally of the stack after one more entry.
proof fn lemma_pending_push(list: Seq<Card>, s: Seq<(SavedGame, Match)>, e: (SavedGame, Match))
    ensures
        pending(list, s.push(e)) == combine(
            pending(list, s),
            explore(list, e.0.pos as nat, moved(cards(e.0.tableau@), e.1)),
        ),
{
    assert(s.push(e).drop_last() =~= s);
}

/// Classifies a finished search by whether any branch was won or lost: with
/// no loss every branch wins, with no win every branch loses, else both occur.
pub fn classify(any_win: bool, any_loss: bool) -> (r: Result)
    ensures
        r == classification(any_win, any_loss),
{
    if !any_loss {
        Result::AlwaysWin
    } else if !any_win {
        Result::AlwaysLose
    } else {
        Result::CanWin
    }
}

/// Explores every sequence of choices from a fresh deal of `deck`, depth
/// first, with the alternatives not yet tried on an explicit stack. Returns
/// the number of decision points met and the classification; the search
/// gives up as soon as that number exceeds `cap`.
#[verifier::rlimit(50)]
pub fn play_deal(deck: Deck, cap: usize) -> (r: (usize, Result))
    requires
        deck.wf(),
        cap < usize::MAX,
    ensures
        (r.0 as nat, r.1) == search_outcome(deck.list@, deck.pos as nat, cap as nat),
{
    let ghost list = deck.list@;
    let ghost pos0 = deck.pos as nat;
    let ghost root = explore(deck.list@, deck.pos as nat, seq![]);
    let mut g = Game::with_deck(deck);
    assert(cards(g.tableau@) =~= seq![]);
    let mut any_win = false;
    let mut any_loss = false;
    let mut to_retry: Vec<(SavedGame, Match)> = Vec::new();
    loop
        invariant_except_break
            root == combine(
                (g.choice_points as nat, any_win, any_loss),
                combine(explore(list, g.deck.pos as nat, cards(g.tableau@)), pending(list, to_retry@)),
            ),
        invariant
            root == explore(list, pos0, seq![]),
            list == deck.list@,
            pos0 == deck.pos as nat,
            g.deck.list@ == list,
            g.wf(),
            g.choice_points <= cap,
            cap < usize::MAX,
            forall|k: int| 0 <= k < to_retry@.len() ==> (#[trigger] to_retry@[k]).0.wf()
                && valid_move(to_retry@[k].0.tableau@, to_retry@[k].1),
        ensures
            root == (g.choice_points as nat, any_win, any_loss),
        decreases cap - g.choice_points, to_retry@.len(),
    {
        let ghost pos1 = g.deck.pos as nat;
        let ghost c1 = cards(g.tableau@);
        let ghost cur = explore(list, pos1, c1);
        let ghost st = pending(list, to_retry@);
        let ghost cp1 = g.choice_points as nat;
        proof {
            lemma_explore_unfold(list, pos1, c1);
        }
        let outcome = g.play_to_choice();
        proof {
            lemma_tableau_canonical(g.tableau@);
        }
        let ghost pos2 = g.deck.pos as nat;
        let ghost c2 = cards(g.tableau@);
        match outcome {
            Choices::GameWon => {
                any_win = true;
            },
            Choices::GameLost => {
                any_loss = true;
            },
            Choices::ChooseOne(c) => {
                let mut i: usize = 0;
                assert(pending(list, to_retry@) == combine(st, explore_children(list, pos2, c2, 0)));
                while i < c.len()
                    invariant
                        g.wf(),
                        g.deck.list@ == list,
                        g.deck.pos as nat == pos2,
                        cards(g.tableau@) == c2,
                        g.tableau@ == placed_flags(c2),
                        c@ == candidates(placed_flags(c2)),
                        i <= c@.len(),
                        pending(list, to_retry@) == combine(st, explore_children(list, pos2, c2, i as nat)),
                        forall|k: int| 0 <= k < c@.len() ==> valid_move(g.tableau@, #[trigger] c@[k]),
                        forall|k: int| 0 <= k < to_retry@.len() ==> (#[trigger] to_retry@[k]).0.wf()
                            && valid_move(to_retry@[k].0.tableau@, to_retry@[k].1),
                    decreases c@.len() - i,
                {
                    let s = g.save_game();
                    let ghost before = to_retry@;
                    proof {
                        assert(valid_move(placed_flags(c2), c@[i as int]));
                        lemma_children_step(list, pos2, c2, i as nat);
                        lemma_pending_push(list, before, (s, c@[i as int]));
                    }
                    to_retry.push((s, c[i]));
                    i = i + 1;
                }
                if g.choice_points > cap {
                    assert(root.0 >= g.choice_points);
                    assert(g.choice_points == cap + 1);
                    assert(search_outcome(list, pos0, cap as nat) == (cap as nat + 1, Result::GaveUp));
                    return (g.choice_points, Result::GaveUp);
                }
            },
        }
        assert(root == combine((g.choice_points as nat, any_win, any_loss), pending(list, to_retry@)));
        let ghost before_pop = to_retry@;
        match to_retry.pop() {
            Some(x) => {
                proof {
                    lemma_pending_push(list, to_retry@, x);
                    assert(to_retry@.push(x) =~= before_pop);
                }
                let (saved, m) = x;
                g.restore(saved);
                g.make_choice(m);
            },
            None => {
                break;
            },
        }
    }
    (g.choice_points, classify(any_win, any_loss))
}

/// With a bound of zero the search gives up, with a count of one, exactly
/// when forced play from the deal reaches a decision point; otherwise it
/// reports the single game's outcome.
pub proof fn lemma_zero_cap(list: Seq<Card>, pos: nat)
    requires
        pos <= list.len(),
    ensures
        ({
            let s = settle(list, pos, seq![]);
            search_outcome(list, pos, 0) == if candidates(placed_flags(s.1)).len() >= 2 {
                (1nat, Result::GaveUp)
            } else if s.1.len() == 1 {
                (0nat, Result::AlwaysWin)
            } else {
                (0nat, Result::AlwaysLose)
            }
        }),
{
    lemma_explore_unfold(list, pos, seq![]);
}

/// A deal is reported as winnable only when both a win and a loss were
/// reached, and as always won or always lost only when one of them alone was:
/// the three classes exclude one another, and each needs an outcome.
pub proof fn lemma_classes_exclusive(any_win: bool, any_loss: bool)
    requires
        any_win || any_loss,
    ensures
        classification(any_win, any_loss) == Result::CanWin <==> any_win && any_loss,
        classification(any_win, any_loss) == Result::AlwaysWin <==> any_win && !any_loss,
        classification(any_win, any_loss) == Result::AlwaysLose <==> !any_win && any_loss,
        classification(any_win, any_loss) != Result::GaveUp,
{
}

/// Classifies one freshly shuffled deal, giving up after
/// `MAX_CHOICE_POINTS` decision points.
pub fn play_one() -> (r: (usize, Result))
    ensures
        r.1 == Result::GaveUp <==> r.0 > MAX_CHOICE_POINTS,
        exists|d: Deck|
            d.wf() && d.pos == 0 && (r.0 as nat, r.1) == search_outcome(d.list@, 0, MAX_CHOICE_POINTS as nat),
{
    let deck = Deck::new_shuffled();
    let ghost d = deck;
    let r = play_deal(deck, MAX_CHOICE_POINTS);
    assert(d.wf() && d.pos == 0 && (r.0 as nat, r.1) == search_outcome(d.list@, 0, MAX_CHOICE_POINTS as nat));
    r
}

} // verus!

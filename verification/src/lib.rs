//! Five-card poker hands: parsing, classification into ranking categories,
//! a total order over classified hands, and selection of the winning hands
//! from a batch of hand strings.
use vstd::prelude::*;

pub mod combo;
pub mod hand;

pub use combo::Combo;
pub use combo::ComboType;
pub use hand::Card;
pub use hand::Hand;
pub use hand::Rank;
pub use hand::Suite;

use combo::combo_le;
use combo::combo_wf;
use combo::lemma_classification_arity;
use combo::lemma_combo_lt_asymmetric;
use combo::lemma_combo_lt_connected;
use combo::lemma_combo_lt_transitive;
use combo::spec_combo;
use hand::cards_of;
use hand::hand_valid;

verus! {

/// The one batch-level failure: a hand string of the input names no valid
/// hand. No partial result is ever returned.
#[derive(Debug, PartialEq, Eq, Structural, Copy, Clone)]
pub enum PokerError {
    InvalidHand,
}

/// The classification of the hand a string names.
pub open spec fn hand_combo(s: Seq<char>) -> (ComboType, Seq<Rank>) {
    spec_combo(cards_of(s))
}

/// Every string of the batch names a valid hand.
pub open spec fn all_hands_valid(hs: Seq<&str>) -> bool {
    forall|i: int| 0 <= i < hs.len() ==> hand_valid(#[trigger] hs[i]@)
}

/// The hand named by `h` ties or beats every hand of the batch.
pub open spec fn is_winning_hand(h: &str, hs: Seq<&str>) -> bool {
    forall|j: int| 0 <= j < hs.len() ==> combo_le(hand_combo(#[trigger] hs[j]@), hand_combo(h@))
}

/// The strings of the batch whose hands tie the best hand, in input
/// order.
pub open spec fn winners_of(hs: Seq<&str>) -> Seq<&str> {
    hs.filter(|h: &str| is_winning_hand(h, hs))
}

/// The hand ties or beats every hand of the batch.
spec fn is_best_hand<'a>(h: Hand<'a>, hs: Seq<Hand<'a>>) -> bool {
    forall|j: int| 0 <= j < hs.len() ==> combo_le((#[trigger] hs[j]).combo@, h.combo@)
}

/// Filtering hands with `p` and reading off their input strings gives the
/// same list as filtering the input strings with `q`, whenever `p` and `q`
/// agree position by position.
proof fn lemma_filter_inputs_agree<'a>(
    hands: Seq<Hand<'a>>,
    inputs: Seq<&'a str>,
    p: spec_fn(Hand<'a>) -> bool,
    q: spec_fn(&'a str) -> bool,
)
    requires
        hands.len() == inputs.len(),
        forall|k: int| 0 <= k < hands.len() ==> (#[trigger] hands[k]).input == inputs[k],
        forall|k: int| 0 <= k < hands.len() ==> p(#[trigger] hands[k]) == q(inputs[k]),
    ensures
        hands.filter(p).map_values(|h: Hand<'a>| h.input) == inputs.filter(q),
    decreases hands.len(),
{
    reveal(Seq::filter);
    let f = |h: Hand<'a>| h.input;
    if hands.len() == 0 {
        assert(hands.filter(p) =~= hands);
        assert(hands.filter(p).map_values(f) =~= Seq::<&'a str>::empty());
        assert(inputs.filter(q) =~= Seq::<&'a str>::empty());
    } else {
        let hd = hands.drop_last();
        let id = inputs.drop_last();
        assert forall|k: int| 0 <= k < hd.len() implies (#[trigger] hd[k]).input == id[k] by {
            assert(hd[k] == hands[k]);
        }
        assert forall|k: int| 0 <= k < hd.len() implies p(#[trigger] hd[k]) == q(id[k]) by {
            assert(hd[k] == hands[k]);
        }
        lemma_filter_inputs_agree(hd, id, p, q);
        assert(hands.last().input == inputs.last());
        assert(p(hands.last()) == q(inputs.last()));
        if p(hands.last()) {
            assert(hands.filter(p) == hd.filter(p).push(hands.last()));
            assert(inputs.filter(q) == id.filter(q).push(inputs.last()));
            assert(hands.filter(p).map_values(f) =~= hd.filter(p).map_values(f).push(
                hands.last().input,
            ));
        } else {
            assert(hands.filter(p) == hd.filter(p));
            assert(inputs.filter(q) == id.filter(q));
        }
    }
}

/// Returns the input strings of the hands that tie the best hand of the
/// batch, in their original order. An empty batch has no winners.
fn prune_losers<'a>(hands: &Vec<Hand<'a>>) -> (w: Vec<&'a str>)
    requires
        forall|k: int| 0 <= k < hands@.len() ==> combo_wf((#[trigger] hands@[k]).combo@),
    ensures
        w@ == hands@.filter(|h: Hand<'a>| is_best_hand(h, hands@)).map_values(
            |h: Hand<'a>| h.input,
        ),
{
    let pred = Ghost(|h: Hand<'a>| is_best_hand(h, hands@));
    let f = Ghost(|h: Hand<'a>| h.input);
    let mut out: Vec<&'a str> = Vec::new();
    if hands.len() == 0 {
        proof {
            reveal(Seq::filter);
            assert(hands@.filter(pred@) =~= Seq::<Hand<'a>>::empty());
            assert(hands@.filter(pred@).map_values(f@) =~= Seq::<&'a str>::empty());
        }
        return out;
    }
    let mut best: usize = 0;
    let mut i: usize = 1;
    while i < hands.len()
        invariant
            1 <= i <= hands@.len(),
            best < i,
            forall|k: int| 0 <= k < hands@.len() ==> combo_wf((#[trigger] hands@[k]).combo@),
            forall|k: int| 0 <= k < i ==> combo_le((#[trigger] hands@[k]).combo@, hands@[best as int].combo@),
        decreases hands@.len() - i,
    {
        if hands[best].combo.lt(&hands[i].combo) {
            proof {
                assert forall|k: int| 0 <= k < i + 1 implies combo_le(
                    (#[trigger] hands@[k]).combo@,
                    hands@[i as int].combo@,
                ) by {
                    if k < i {
                        if hands@[k].combo@ == hands@[best as int].combo@ {
                        } else {
                            lemma_combo_lt_transitive(
                                hands@[k].combo@,
                                hands@[best as int].combo@,
                                hands@[i as int].combo@,
                            );
                        }
                    }
                }
            }
            best = i;
        } else {
            proof {
                lemma_combo_lt_connected(hands@[i as int].combo@, hands@[best as int].combo@);
            }
        }
        i = i + 1;
    }
    let mut j: usize = 0;
    proof {
        assert(hands@.take(0).filter(pred@).map_values(f@) =~= Seq::<&'a str>::empty()) by {
            reveal(Seq::filter);
            assert(hands@.take(0) =~= Seq::<Hand<'a>>::empty());
        }
    }
    while j < hands.len()
        invariant
            j <= hands@.len(),
            best < hands@.len(),
            pred == Ghost(|h: Hand<'a>| is_best_hand(h, hands@)),
            f == Ghost(|h: Hand<'a>| h.input),
            forall|k: int| 0 <= k < hands@.len() ==> combo_wf((#[trigger] hands@[k]).combo@),
            forall|k: int|
                0 <= k < hands@.len() ==> combo_le(
                    (#[trigger] hands@[k]).combo@,
                    hands@[best as int].combo@,
                ),
            out@ == hands@.take(j as int).filter(pred@).map_values(f@),
        decreases hands@.len() - j,
    {
        proof {
            reveal(Seq::filter);
            assert(hands@.take(j + 1).drop_last() =~= hands@.take(j as int));
            assert(hands@.take(j + 1).last() == hands@[j as int]);
        }
        if hands[j].combo.equals(&hands[best].combo) {
            out.push(hands[j].input);
            proof {
                assert(is_best_hand(hands@[j as int], hands@));
                assert(hands@.take(j + 1).filter(pred@) == hands@.take(j as int).filter(
                    pred@,
                ).push(hands@[j as int]));
                assert(hands@.take(j + 1).filter(pred@).map_values(f@) =~= hands@.take(
                    j as int,
                ).filter(pred@).map_values(f@).push(hands@[j as int].input));
            }
        } else {
            proof {
                if is_best_hand(hands@[j as int], hands@) {
                    assert(combo_le(hands@[best as int].combo@, hands@[j as int].combo@));
                    assert(combo_le(hands@[j as int].combo@, hands@[best as int].combo@));
                    lemma_combo_lt_asymmetric(hands@[j as int].combo@, hands@[best as int].combo@);
                    assert(false);
                }
                assert(hands@.take(j + 1).filter(pred@) == hands@.take(j as int).filter(pred@));
            }
        }
        j = j + 1;
    }
    proof {
        assert(hands@.take(hands@.len() as int) =~= hands@);
    }
    out
}

/// Given a batch of hand strings, returns the strings of the hands that
/// tie for best, as the very input values and in their input order. The
/// whole call fails if any string of the batch names no valid hand; an
/// empty batch yields an empty result.
pub fn winning_hands<'a>(input: &[&'a str]) -> (r: Result<Vec<&'a str>, PokerError>)
    ensures
        match r {
            Ok(w) => all_hands_valid(input@) && w@ == winners_of(input@),
            Err(e) => !all_hands_valid(input@) && e == PokerError::InvalidHand,
        },
{
    let n = input.len();
    let mut hands: Vec<Hand<'a>> = Vec::new();
    let mut i: usize = 0;
    while i < n
        invariant
            n == input@.len(),
            i <= n,
            hands@.len() == i,
            forall|k: int| 0 <= k < i ==> hand_valid(#[trigger] input@[k]@),
            forall|k: int| 0 <= k < i ==> (#[trigger] hands@[k]).input == input@[k],
            forall|k: int|
                0 <= k < i ==> (#[trigger] hands@[k]).combo@ == hand_combo(input@[k]@),
        decreases n - i,
    {
        match Hand::new(input[i]) {
            Some(h) => {
                hands.push(h);
            },
            None => {
                proof {
                    assert(!hand_valid(input@[i as int]@));
                }
                return Err(PokerError::InvalidHand);
            },
        }
        i = i + 1;
    }
    proof {
        assert forall|k: int| 0 <= k < hands@.len() implies combo_wf(
            (#[trigger] hands@[k]).combo@,
        ) by {
            assert(hand_valid(input@[k]@));
            lemma_classification_arity(cards_of(input@[k]@));
        }
    }
    let w = prune_losers(&hands);
    proof {
        let p = |h: Hand<'a>| is_best_hand(h, hands@);
        let q = |h: &'a str| is_winning_hand(h, input@);
        assert forall|k: int| 0 <= k < hands@.len() implies p(#[trigger] hands@[k]) == q(
            input@[k],
        ) by {
            if p(hands@[k]) {
                assert forall|j: int| 0 <= j < input@.len() implies combo_le(
                    hand_combo(#[trigger] input@[j]@),
                    hand_combo(input@[k]@),
                ) by {
                    assert(combo_le(hands@[j].combo@, hands@[k].combo@));
                }
            }
            if q(input@[k]) {
                assert forall|j: int| 0 <= j < hands@.len() implies combo_le(
                    (#[trigger] hands@[j]).combo@,
                    hands@[k].combo@,
                ) by {
                    assert(combo_le(hand_combo(input@[j]@), hand_combo(input@[k]@)));
                }
            }
        }
        lemma_filter_inputs_agree(hands@, input@, p, q);
    }
    Ok(w)
}

} // verus!

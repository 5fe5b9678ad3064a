//! Hand classification: grouping the five ranks by multiplicity, deriving the
//! hand's category and tie-break sequence, and the total order over combos.
use crate::hand::Card;
use crate::hand::Rank;
use crate::hand::five_of_a_kind;
use crate::hand::lemma_rank_val_bounds;
use crate::hand::rank_of_val;
use crate::hand::rank_val;
use vstd::prelude::*;

verus! {

/// The nine hand categories, ascending in strength.
#[derive(Debug, PartialEq, Eq, Structural, Copy, Clone)]
pub enum ComboType {
    HighCard,
    OnePair,
    TwoPair,
    ThreeOfAKind,
    Straight,
    Flush,
    FullHouse,
    FourOfAKind,
    StraightFlush,
}

/// The position of a category in the ascending strength order.
pub open spec fn cat_val(t: ComboType) -> int {
    match t {
        ComboType::HighCard => 0,
        ComboType::OnePair => 1,
        ComboType::TwoPair => 2,
        ComboType::ThreeOfAKind => 3,
        ComboType::Straight => 4,
        ComboType::Flush => 5,
        ComboType::FullHouse => 6,
        ComboType::FourOfAKind => 7,
        ComboType::StraightFlush => 8,
    }
}

impl ComboType {
    /// The category's position in the ascending strength order.
    pub fn value(&self) -> (v: u8)
        ensures
            v as int == cat_val(*self),
    {
        match self {
            ComboType::HighCard => 0,
            ComboType::OnePair => 1,
            ComboType::TwoPair => 2,
            ComboType::ThreeOfAKind => 3,
            ComboType::Straight => 4,
            ComboType::Flush => 5,
            ComboType::FullHouse => 6,
            ComboType::FourOfAKind => 7,
            ComboType::StraightFlush => 8,
        }
    }
}

/// How many of the cards bear the given rank.
pub open spec fn count_rank(cards: Seq<Card>, r: Rank) -> nat
    decreases cards.len(),
{
    if cards.len() == 0 {
        0
    } else {
        count_rank(cards.drop_last(), r) + (if cards.last().rank == r {
            1nat
        } else {
            0nat
        })
    }
}

/// The ranks borne by exactly `n` of the cards and standing at a position
/// not below `v`, in descending rank order.
pub open spec fn group_rec(cards: Seq<Card>, n: nat, v: int) -> Seq<Rank>
    decreases 13 - v,
{
    if v < 0 || v >= 13 {
        Seq::empty()
    } else {
        group_rec(cards, n, v + 1) + (if count_rank(cards, rank_of_val(v)) == n {
            seq![rank_of_val(v)]
        } else {
            Seq::empty()
        })
    }
}

/// The ranks borne by exactly `n` of the cards, in descending rank order:
/// the quadruplet ranks for `n == 4`, the triplet ranks for 3, the pair
/// ranks for 2 and the single ranks for 1.
pub open spec fn rank_group(cards: Seq<Card>, n: nat) -> Seq<Rank> {
    group_rec(cards, n, 0)
}

/// Every card of the hand bears the suite of the first card.
pub open spec fn is_flush(cards: Seq<Card>) -> bool {
    forall|i: int| 0 <= i < cards.len() ==> (#[trigger] cards[i]).suite == cards[0].suite
}

/// The five distinct ranks of the Ace-low straight, in descending order.
pub open spec fn wheel_desc() -> Seq<Rank> {
    seq![Rank::Ace, Rank::Five, Rank::Four, Rank::Three, Rank::Two]
}

/// The tie-break order of the Ace-low straight: the Ace ranks lowest in
/// this one case.
pub open spec fn wheel_order() -> Seq<Rank> {
    seq![Rank::Five, Rank::Four, Rank::Three, Rank::Two, Rank::Ace]
}

/// Each adjacent pair of the descending rank list differs by exactly one
/// rank step.
pub open spec fn is_sequential(s: Seq<Rank>) -> bool {
    forall|i: int| 0 <= i < s.len() - 1 ==> rank_val(#[trigger] s[i]) == rank_val(s[i + 1]) + 1
}

/// The straight rule over the descending list of single ranks: five
/// distinct ranks, either the Ace-low set or consecutive.
pub open spec fn straight_cond(s: Seq<Rank>) -> bool {
    s.len() == 5 && (s == wheel_desc() || is_sequential(s))
}

/// The tie-break ranks of a straight: as listed, except that the Ace-low
/// straight is reordered to put the Ace last.
pub open spec fn straight_ranks(s: Seq<Rank>) -> Seq<Rank> {
    if s == wheel_desc() {
        wheel_order()
    } else {
        s
    }
}

/// The hand's five ranks are distinct and form a straight.
pub open spec fn is_straight(cards: Seq<Card>) -> bool {
    straight_cond(rank_group(cards, 1))
}

/// The category of a five-card hand, decided by checking the patterns in
/// strength order, strongest condition first; the first match wins.
pub open spec fn spec_category(cards: Seq<Card>) -> ComboType {
    if rank_group(cards, 3).len() > 0 && rank_group(cards, 2).len() > 0 {
        ComboType::FullHouse
    } else if rank_group(cards, 4).len() > 0 {
        ComboType::FourOfAKind
    } else if rank_group(cards, 3).len() > 0 {
        ComboType::ThreeOfAKind
    } else if rank_group(cards, 2).len() == 2 {
        ComboType::TwoPair
    } else if rank_group(cards, 2).len() == 1 {
        ComboType::OnePair
    } else if is_straight(cards) && is_flush(cards) {
        ComboType::StraightFlush
    } else if is_straight(cards) {
        ComboType::Straight
    } else if is_flush(cards) {
        ComboType::Flush
    } else {
        ComboType::HighCard
    }
}

/// The tie-break ranks of a five-card hand: the grouped ranks, higher
/// multiplicity first and descending within each group, except that a
/// straight may reorder the Ace.
pub open spec fn spec_tiebreak(cards: Seq<Card>) -> Seq<Rank> {
    match spec_category(cards) {
        ComboType::FullHouse => rank_group(cards, 3) + rank_group(cards, 2),
        ComboType::FourOfAKind => rank_group(cards, 4) + rank_group(cards, 1),
        ComboType::ThreeOfAKind => rank_group(cards, 3) + rank_group(cards, 1),
        ComboType::TwoPair => rank_group(cards, 2) + rank_group(cards, 1),
        ComboType::OnePair => rank_group(cards, 2) + rank_group(cards, 1),
        ComboType::StraightFlush => straight_ranks(rank_group(cards, 1)),
        ComboType::Straight => straight_ranks(rank_group(cards, 1)),
        ComboType::Flush => rank_group(cards, 1),
        ComboType::HighCard => rank_group(cards, 1),
    }
}

/// The full classification of a five-card hand.
pub open spec fn spec_combo(cards: Seq<Card>) -> (ComboType, Seq<Rank>) {
    (spec_category(cards), spec_tiebreak(cards))
}

/// Lexicographic strict order over tie-break rank lists: the first
/// differing position decides; a list never precedes its own prefix.
pub open spec fn ranks_lt(a: Seq<Rank>, b: Seq<Rank>) -> bool
    decreases a.len(),
{
    if a.len() == 0 || b.len() == 0 {
        false
    } else if rank_val(a[0]) < rank_val(b[0]) {
        true
    } else if rank_val(b[0]) < rank_val(a[0]) {
        false
    } else {
        ranks_lt(a.drop_first(), b.drop_first())
    }
}

/// Strict order over classified hands: category first, then the tie-break
/// ranks lexicographically.
pub open spec fn combo_lt(a: (ComboType, Seq<Rank>), b: (ComboType, Seq<Rank>)) -> bool {
    cat_val(a.0) < cat_val(b.0) || (a.0 == b.0 && ranks_lt(a.1, b.1))
}

/// Non-strict companion of `combo_lt`.
pub open spec fn combo_le(a: (ComboType, Seq<Rank>), b: (ComboType, Seq<Rank>)) -> bool {
    a == b || combo_lt(a, b)
}

/// The tie-break length that each category calls for.
pub open spec fn tiebreak_arity(t: ComboType) -> nat {
    match t {
        ComboType::FullHouse => 2,
        ComboType::FourOfAKind => 2,
        ComboType::ThreeOfAKind => 3,
        ComboType::TwoPair => 3,
        ComboType::OnePair => 4,
        ComboType::StraightFlush => 5,
        ComboType::Straight => 5,
        ComboType::Flush => 5,
        ComboType::HighCard => 5,
    }
}

/// A classified hand is well formed when its tie-break list has exactly
/// the length its category calls for.
pub open spec fn combo_wf(c: (ComboType, Seq<Rank>)) -> bool {
    c.1.len() == tiebreak_arity(c.0)
}

/// Classification is total with the arity the category calls for: every
/// five-card hand that is not five of a kind gets exactly one category,
/// and its tie-break list has the category's length.
pub proof fn lemma_classification_arity(cards: Seq<Card>)
    requires
        cards.len() == 5,
        !five_of_a_kind(cards),
    ensures
        combo_wf(spec_combo(cards)),
{
    lemma_no_five_counts(cards);
    lemma_group_sizes(cards);
}

/// Two categories at the same position of the strength order are the same
/// category.
proof fn lemma_cat_val_injective(a: ComboType, b: ComboType)
    requires
        cat_val(a) == cat_val(b),
    ensures
        a == b,
{
}

/// Two ranks at the same position of the Two..Ace order are the same rank.
proof fn lemma_rank_val_injective(a: Rank, b: Rank)
    requires
        rank_val(a) == rank_val(b),
    ensures
        a == b,
{
    broadcast use lemma_rank_val_bounds;

}

/// No tie-break list precedes itself.
proof fn lemma_ranks_lt_irreflexive(a: Seq<Rank>)
    ensures
        !ranks_lt(a, a),
    decreases a.len(),
{
    if a.len() > 0 {
        lemma_ranks_lt_irreflexive(a.drop_first());
    }
}

/// At most one direction of the lexicographic order holds.
proof fn lemma_ranks_lt_asymmetric(a: Seq<Rank>, b: Seq<Rank>)
    ensures
        !(ranks_lt(a, b) && ranks_lt(b, a)),
    decreases a.len(),
{
    if a.len() > 0 && b.len() > 0 && rank_val(a[0]) == rank_val(b[0]) {
        lemma_ranks_lt_asymmetric(a.drop_first(), b.drop_first());
    }
}

/// Lists of equal length are ordered one way, the other, or equal.
proof fn lemma_ranks_lt_connected(a: Seq<Rank>, b: Seq<Rank>)
    requires
        a.len() == b.len(),
    ensures
        ranks_lt(a, b) || ranks_lt(b, a) || a == b,
    decreases a.len(),
{
    if a.len() > 0 {
        if rank_val(a[0]) == rank_val(b[0]) {
            lemma_rank_val_injective(a[0], b[0]);
            lemma_ranks_lt_connected(a.drop_first(), b.drop_first());
            if a.drop_first() == b.drop_first() {
                assert forall|i: int| 0 <= i < a.len() implies a[i] == b[i] by {
                    if i > 0 {
                        assert(a.drop_first()[i - 1] == a[i]);
                        assert(b.drop_first()[i - 1] == b[i]);
                    }
                }
                assert(a =~= b);
            }
        }
    } else {
        assert(a =~= b);
    }
}

/// The lexicographic order composes.
proof fn lemma_ranks_lt_transitive(a: Seq<Rank>, b: Seq<Rank>, c: Seq<Rank>)
    requires
        ranks_lt(a, b),
        ranks_lt(b, c),
    ensures
        ranks_lt(a, c),
    decreases a.len(),
{
    if rank_val(a[0]) == rank_val(b[0]) && rank_val(b[0]) == rank_val(c[0]) {
        lemma_ranks_lt_transitive(a.drop_first(), b.drop_first(), c.drop_first());
    }
}

/// The order over classified hands is irreflexive.
pub proof fn lemma_combo_lt_irreflexive(a: (ComboType, Seq<Rank>))
    ensures
        !combo_lt(a, a),
{
    lemma_ranks_lt_irreflexive(a.1);
}

/// The order over classified hands is antisymmetric: no two hands precede
/// each other.
pub proof fn lemma_combo_lt_asymmetric(a: (ComboType, Seq<Rank>), b: (ComboType, Seq<Rank>))
    ensures
        !(combo_lt(a, b) && combo_lt(b, a)),
{
    lemma_ranks_lt_asymmetric(a.1, b.1);
}

/// The order over classified hands is transitive.
pub proof fn lemma_combo_lt_transitive(
    a: (ComboType, Seq<Rank>),
    b: (ComboType, Seq<Rank>),
    c: (ComboType, Seq<Rank>),
)
    requires
        combo_lt(a, b),
        combo_lt(b, c),
    ensures
        combo_lt(a, c),
{
    if a.0 == b.0 && b.0 == c.0 {
        lemma_ranks_lt_transitive(a.1, b.1, c.1);
    }
}

/// The order over well-formed classified hands is total: any two are
/// ordered one way, the other, or equal.
pub proof fn lemma_combo_lt_connected(a: (ComboType, Seq<Rank>), b: (ComboType, Seq<Rank>))
    requires
        combo_wf(a),
        combo_wf(b),
    ensures
        combo_lt(a, b) || combo_lt(b, a) || a == b,
{
    if a.0 == b.0 {
        lemma_ranks_lt_connected(a.1, b.1);
    }
}

/// Category dominance: a hand of a stronger category beats any hand of a
/// weaker one, whatever the ranks.
pub proof fn lemma_category_dominance(a: (ComboType, Seq<Rank>), b: (ComboType, Seq<Rank>))
    requires
        cat_val(a.0) < cat_val(b.0),
    ensures
        combo_lt(a, b),
{
}

/// A rank's count never exceeds the number of cards.
proof fn lemma_count_le_len(cards: Seq<Card>, r: Rank)
    ensures
        count_rank(cards, r) <= cards.len(),
    decreases cards.len(),
{
    if cards.len() > 0 {
        lemma_count_le_len(cards.drop_last(), r);
    }
}

/// A rank counted as often as there are cards is borne by every card.
proof fn lemma_count_full(cards: Seq<Card>, r: Rank)
    requires
        count_rank(cards, r) == cards.len(),
    ensures
        forall|i: int| 0 <= i < cards.len() ==> cards[i].rank == r,
    decreases cards.len(),
{
    if cards.len() > 0 {
        lemma_count_le_len(cards.drop_last(), r);
        lemma_count_full(cards.drop_last(), r);
        assert forall|i: int| 0 <= i < cards.len() implies cards[i].rank == r by {
            if i < cards.len() - 1 {
                assert(cards.drop_last()[i] == cards[i]);
            } else {
                assert(cards[i] == cards.last());
            }
        }
    }
}

/// In a five-card hand that is not five of a kind, every rank count is at
/// most four.
proof fn lemma_no_five_counts(cards: Seq<Card>)
    requires
        cards.len() == 5,
        !five_of_a_kind(cards),
    ensures
        forall|r: Rank| count_rank(cards, r) <= 4,
{
    assert forall|r: Rank| count_rank(cards, r) <= 4 by {
        lemma_count_le_len(cards, r);
        if count_rank(cards, r) == 5 {
            lemma_count_full(cards, r);
            assert(cards[0].rank == r);
            assert(five_of_a_kind(cards));
        }
    }
}

/// The total count of the ranks standing at position `v` or above.
spec fn weight_from(cards: Seq<Card>, v: int) -> nat
    decreases 13 - v,
{
    if v < 0 || v >= 13 {
        0
    } else {
        count_rank(cards, rank_of_val(v)) + weight_from(cards, v + 1)
    }
}

/// Removing the last card lowers the weight by one wherever the card's
/// rank position is counted.
proof fn lemma_weight_drop_last(cards: Seq<Card>, v: int)
    requires
        cards.len() > 0,
        0 <= v <= 13,
    ensures
        weight_from(cards, v) == weight_from(cards.drop_last(), v) + (if rank_val(
            cards.last().rank,
        ) >= v {
            1nat
        } else {
            0nat
        }),
    decreases 13 - v,
{
    broadcast use lemma_rank_val_bounds;

    if v < 13 {
        lemma_weight_drop_last(cards, v + 1);
        assert(cards.last().rank == rank_of_val(v) <==> rank_val(cards.last().rank) == v);
    }
}

/// Each card is counted exactly once over all rank positions.
proof fn lemma_weight_total(cards: Seq<Card>)
    ensures
        weight_from(cards, 0) == cards.len(),
    decreases cards.len(),
{
    broadcast use lemma_rank_val_bounds;

    if cards.len() == 0 {
        lemma_weight_empty(cards, 0);
    } else {
        lemma_weight_total(cards.drop_last());
        lemma_weight_drop_last(cards, 0);
    }
}

proof fn lemma_weight_empty(cards: Seq<Card>, v: int)
    requires
        cards.len() == 0,
        0 <= v <= 13,
    ensures
        weight_from(cards, v) == 0,
    decreases 13 - v,
{
    if v < 13 {
        lemma_weight_empty(cards, v + 1);
    }
}

/// The weight above position `v` equals the group sizes above `v`, each
/// taken with its multiplicity, provided no count exceeds four.
proof fn lemma_weight_groups(cards: Seq<Card>, v: int)
    requires
        0 <= v <= 13,
        forall|r: Rank| count_rank(cards, r) <= 4,
    ensures
        weight_from(cards, v) == 4 * group_rec(cards, 4, v).len() + 3 * group_rec(cards, 3, v).len()
            + 2 * group_rec(cards, 2, v).len() + group_rec(cards, 1, v).len(),
    decreases 13 - v,
{
    if v == 13 {
        assert(group_rec(cards, 4, v) =~= Seq::<Rank>::empty());
        assert(group_rec(cards, 3, v) =~= Seq::<Rank>::empty());
        assert(group_rec(cards, 2, v) =~= Seq::<Rank>::empty());
        assert(group_rec(cards, 1, v) =~= Seq::<Rank>::empty());
    } else {
        lemma_weight_groups(cards, v + 1);
        assert(count_rank(cards, rank_of_val(v)) <= 4);
    }
}

/// The sizes of the four groups, weighted by multiplicity, account for
/// every card of the hand.
proof fn lemma_group_sizes(cards: Seq<Card>)
    requires
        forall|r: Rank| count_rank(cards, r) <= 4,
    ensures
        4 * rank_group(cards, 4).len() + 3 * rank_group(cards, 3).len() + 2 * rank_group(
            cards,
            2,
        ).len() + rank_group(cards, 1).len() == cards.len(),
{
    lemma_weight_total(cards);
    lemma_weight_groups(cards, 0);
}

/// One step of the descending walk that builds a group: closing position
/// `v` appends its rank exactly when its count is `n`.
proof fn lemma_group_rec_step(cards: Seq<Card>, n: nat, v: int, rank: Rank)
    requires
        0 <= v < 13,
        rank == rank_of_val(v),
    ensures
        group_rec(cards, n, v) == (if count_rank(cards, rank) == n {
            group_rec(cards, n, v + 1).push(rank)
        } else {
            group_rec(cards, n, v + 1)
        }),
{
    if count_rank(cards, rank) == n {
        assert(group_rec(cards, n, v) =~= group_rec(cards, n, v + 1).push(rank));
    } else {
        assert(group_rec(cards, n, v) =~= group_rec(cards, n, v + 1));
    }
}

/// The transient grouping of the hand's ranks by multiplicity, each group in
/// descending rank order. Built once per hand and consumed by the
/// classifier.
struct RankGroupMap {
    quadruplet: Vec<Rank>,
    triplet: Vec<Rank>,
    pairs: Vec<Rank>,
    singles: Vec<Rank>,
}

impl RankGroupMap {
    /// The groups hold exactly the multiplicity classes of `cards`.
    spec fn matches(self, cards: Seq<Card>) -> bool {
        &&& self.quadruplet@ == rank_group(cards, 4)
        &&& self.triplet@ == rank_group(cards, 3)
        &&& self.pairs@ == rank_group(cards, 2)
        &&& self.singles@ == rank_group(cards, 1)
    }

    fn new() -> (g: RankGroupMap)
        ensures
            g.quadruplet@ == Seq::<Rank>::empty(),
            g.triplet@ == Seq::<Rank>::empty(),
            g.pairs@ == Seq::<Rank>::empty(),
            g.singles@ == Seq::<Rank>::empty(),
    {
        let g = RankGroupMap {
            quadruplet: Vec::new(),
            triplet: Vec::new(),
            pairs: Vec::new(),
            singles: Vec::new(),
        };
        proof {
            assert(g.quadruplet@ =~= Seq::<Rank>::empty());
            assert(g.triplet@ =~= Seq::<Rank>::empty());
            assert(g.pairs@ =~= Seq::<Rank>::empty());
            assert(g.singles@ =~= Seq::<Rank>::empty());
        }
        g
    }

    /// Appends `rank` to the group keyed by `count`. A count outside 1..=4
    /// has no group and changes nothing.
    fn insert(&mut self, count: usize, rank: Rank)
        ensures
            final(self).quadruplet@ == (if count == 4 {
                old(self).quadruplet@.push(rank)
            } else {
                old(self).quadruplet@
            }),
            final(self).triplet@ == (if count == 3 {
                old(self).triplet@.push(rank)
            } else {
                old(self).triplet@
            }),
            final(self).pairs@ == (if count == 2 {
                old(self).pairs@.push(rank)
            } else {
                old(self).pairs@
            }),
            final(self).singles@ == (if count == 1 {
                old(self).singles@.push(rank)
            } else {
                old(self).singles@
            }),
    {
        if count == 4 {
            self.quadruplet.push(rank);
        } else if count == 3 {
            self.triplet.push(rank);
        } else if count == 2 {
            self.pairs.push(rank);
        } else if count == 1 {
            self.singles.push(rank);
        }
    }
}

/// A classified hand: its category together with the tie-break ranks, most
/// significant first.
#[derive(Debug, PartialEq, Eq, Clone)]
pub struct Combo {
    combo_type: ComboType,
    ranks: Vec<Rank>,
}

impl View for Combo {
    type V = (ComboType, Seq<Rank>);

    closed spec fn view(&self) -> (ComboType, Seq<Rank>) {
        (self.combo_type, self.ranks@)
    }
}

impl Combo {
    /// Counts the cards of the hand bearing `rank`.
    fn count_each_rank(cards: &Vec<Card>, rank: Rank) -> (c: usize)
        ensures
            c as nat == count_rank(cards@, rank),
    {
        let mut c: usize = 0;
        let mut i: usize = 0;
        while i < cards.len()
            invariant
                i <= cards@.len(),
                c <= i,
                c as nat == count_rank(cards@.take(i as int), rank),
            decreases cards@.len() - i,
        {
            proof {
                assert(cards@.take(i + 1 as int).drop_last() =~= cards@.take(i as int));
                assert(cards@.take(i + 1 as int).last() == cards@[i as int]);
            }
            if cards[i].rank == rank {
                c = c + 1;
            }
            i = i + 1;
        }
        proof {
            assert(cards@.take(cards@.len() as int) =~= cards@);
        }
        c
    }

    /// Groups the hand's ranks by multiplicity. Walking the rank positions
    /// from Ace down to Two keeps every group in descending rank order.
    fn enumerate(cards: &Vec<Card>) -> (g: RankGroupMap)
        ensures
            g.matches(cards@),
    {
        let mut g = RankGroupMap::new();
        let mut v: usize = 13;
        while v > 0
            invariant
                v <= 13,
                g.quadruplet@ == group_rec(cards@, 4, v as int),
                g.triplet@ == group_rec(cards@, 3, v as int),
                g.pairs@ == group_rec(cards@, 2, v as int),
                g.singles@ == group_rec(cards@, 1, v as int),
            decreases v,
        {
            v = v - 1;
            let rank = Rank::from_value(v as u8);
            let count = Combo::count_each_rank(cards, rank);
            g.insert(count, rank);
            proof {
                lemma_group_rec_step(cards@, 4, v as int, rank);
                lemma_group_rec_step(cards@, 3, v as int, rank);
                lemma_group_rec_step(cards@, 2, v as int, rank);
                lemma_group_rec_step(cards@, 1, v as int, rank);
            }
        }
        g
    }

    /// Whether every card bears the suite of the first.
    fn are_cards_of_same_suite(cards: &Vec<Card>) -> (b: bool)
        requires
            cards@.len() > 0,
        ensures
            b == is_flush(cards@),
    {
        let suite = cards[0].suite;
        let mut i: usize = 0;
        while i < cards.len()
            invariant
                i <= cards@.len(),
                cards@.len() > 0,
                suite == cards@[0].suite,
                forall|k: int| 0 <= k < i ==> (#[trigger] cards@[k]).suite == suite,
            decreases cards@.len() - i,
        {
            if cards[i].suite != suite {
                return false;
            }
            i = i + 1;
        }
        true
    }

    /// A triplet beside a pair: a full house, tie-broken by the triplet
    /// rank, then the pair rank.
    fn get_full_house(g: &RankGroupMap) -> (r: Option<Combo>)
        ensures
            match r {
                Some(c) => g.triplet@.len() > 0 && g.pairs@.len() > 0 && c@ == (
                    ComboType::FullHouse,
                    seq![g.triplet@[0], g.pairs@[0]],
                ),
                None => !(g.triplet@.len() > 0 && g.pairs@.len() > 0),
            },
    {
        if g.triplet.len() > 0 && g.pairs.len() > 0 {
            let mut ranks: Vec<Rank> = Vec::new();
            ranks.push(g.triplet[0]);
            ranks.push(g.pairs[0]);
            proof {
                assert(ranks@ =~= seq![g.triplet@[0], g.pairs@[0]]);
            }
            Some(Combo { combo_type: ComboType::FullHouse, ranks })
        } else {
            None
        }
    }

    /// A quadruplet: four of a kind, tie-broken by the quadruplet rank,
    /// then the kicker.
    fn get_four_of_a_kind(g: &RankGroupMap) -> (r: Option<Combo>)
        ensures
            match r {
                Some(c) => g.quadruplet@.len() > 0 && g.singles@.len() > 0 && c@ == (
                    ComboType::FourOfAKind,
                    seq![g.quadruplet@[0], g.singles@[0]],
                ),
                None => !(g.quadruplet@.len() > 0 && g.singles@.len() > 0),
            },
    {
        if g.quadruplet.len() > 0 && g.singles.len() > 0 {
            let mut ranks: Vec<Rank> = Vec::new();
            ranks.push(g.quadruplet[0]);
            ranks.push(g.singles[0]);
            proof {
                assert(ranks@ =~= seq![g.quadruplet@[0], g.singles@[0]]);
            }
            Some(Combo { combo_type: ComboType::FourOfAKind, ranks })
        } else {
            None
        }
    }

    /// A triplet with two kickers: three of a kind, tie-broken by the
    /// triplet rank, then the kickers descending.
    fn get_three_of_a_kind(g: &RankGroupMap) -> (r: Option<Combo>)
        ensures
            match r {
                Some(c) => g.triplet@.len() > 0 && g.singles@.len() >= 2 && c@ == (
                    ComboType::ThreeOfAKind,
                    seq![g.triplet@[0], g.singles@[0], g.singles@[1]],
                ),
                None => !(g.triplet@.len() > 0 && g.singles@.len() >= 2),
            },
    {
        if g.triplet.len() > 0 && g.singles.len() >= 2 {
            let mut ranks: Vec<Rank> = Vec::new();
            ranks.push(g.triplet[0]);
            ranks.push(g.singles[0]);
            ranks.push(g.singles[1]);
            proof {
                assert(ranks@ =~= seq![g.triplet@[0], g.singles@[0], g.singles@[1]]);
            }
            Some(Combo { combo_type: ComboType::ThreeOfAKind, ranks })
        } else {
            None
        }
    }

    /// Two pair ranks give two pair, one gives one pair; the kickers
    /// follow descending.
    fn get_one_or_two_pairs(g: &RankGroupMap) -> (r: Option<Combo>)
        ensures
            match r {
                Some(c) => (g.pairs@.len() == 2 && g.singles@.len() >= 1 && c@ == (
                    ComboType::TwoPair,
                    seq![g.pairs@[0], g.pairs@[1], g.singles@[0]],
                )) || (g.pairs@.len() == 1 && g.singles@.len() >= 3 && c@ == (
                    ComboType::OnePair,
                    seq![g.pairs@[0], g.singles@[0], g.singles@[1], g.singles@[2]],
                )),
                None => !(g.pairs@.len() == 2 && g.singles@.len() >= 1) && !(g.pairs@.len() == 1
                    && g.singles@.len() >= 3),
            },
    {
        if g.pairs.len() == 2 && g.singles.len() >= 1 {
            let mut ranks: Vec<Rank> = Vec::new();
            ranks.push(g.pairs[0]);
            ranks.push(g.pairs[1]);
            ranks.push(g.singles[0]);
            proof {
                assert(ranks@ =~= seq![g.pairs@[0], g.pairs@[1], g.singles@[0]]);
            }
            Some(Combo { combo_type: ComboType::TwoPair, ranks })
        } else if g.pairs.len() == 1 && g.singles.len() >= 3 {
            let mut ranks: Vec<Rank> = Vec::new();
            ranks.push(g.pairs[0]);
            ranks.push(g.singles[0]);
            ranks.push(g.singles[1]);
            ranks.push(g.singles[2]);
            proof {
                assert(ranks@ =~= seq![
                    g.pairs@[0],
                    g.singles@[0],
                    g.singles@[1],
                    g.singles@[2],
                ]);
            }
            Some(Combo { combo_type: ComboType::OnePair, ranks })
        } else {
            None
        }
    }

    /// Five distinct ranks that are the Ace-low set or consecutive: a
    /// straight, tie-broken in straight order.
    fn get_straight(g: &RankGroupMap) -> (r: Option<Combo>)
        ensures
            match r {
                Some(c) => straight_cond(g.singles@) && c@ == (
                    ComboType::Straight,
                    straight_ranks(g.singles@),
                ),
                None => !straight_cond(g.singles@),
            },
    {
        if g.singles.len() != 5 {
            return None;
        }
        let s = &g.singles;
        if s[0] == Rank::Ace && s[1] == Rank::Five && s[2] == Rank::Four && s[3] == Rank::Three
            && s[4] == Rank::Two {
            proof {
                assert(g.singles@ =~= wheel_desc());
            }
            let mut ranks: Vec<Rank> = Vec::new();
            ranks.push(Rank::Five);
            ranks.push(Rank::Four);
            ranks.push(Rank::Three);
            ranks.push(Rank::Two);
            ranks.push(Rank::Ace);
            proof {
                assert(ranks@ =~= wheel_order());
            }
            Some(Combo { combo_type: ComboType::Straight, ranks })
        } else {
            proof {
                if g.singles@ == wheel_desc() {
                    assert(g.singles@[0] == Rank::Ace && g.singles@[1] == Rank::Five
                        && g.singles@[2] == Rank::Four && g.singles@[3] == Rank::Three
                        && g.singles@[4] == Rank::Two);
                }
            }
            let mut i: usize = 0;
            while i < 4
                invariant
                    i <= 4,
                    g.singles@.len() == 5,
                    g.singles@ != wheel_desc(),
                    forall|k: int|
                        0 <= k < i ==> rank_val(#[trigger] g.singles@[k]) == rank_val(
                            g.singles@[k + 1],
                        ) + 1,
                decreases 4 - i,
            {
                if g.singles[i].value() != g.singles[i + 1].value() + 1 {
                    return None;
                }
                i = i + 1;
            }
            let mut ranks: Vec<Rank> = Vec::new();
            ranks.push(s[0]);
            ranks.push(s[1]);
            ranks.push(s[2]);
            ranks.push(s[3]);
            ranks.push(s[4]);
            proof {
                assert(ranks@ =~= g.singles@);
            }
            Some(Combo { combo_type: ComboType::Straight, ranks })
        }
    }

    /// A straight whose cards all bear one suite: a straight flush, with
    /// the straight's tie-break order.
    fn get_straight_flush(g: &RankGroupMap, cards: &Vec<Card>) -> (r: Option<Combo>)
        requires
            cards@.len() > 0,
        ensures
            match r {
                Some(c) => straight_cond(g.singles@) && is_flush(cards@) && c@ == (
                    ComboType::StraightFlush,
                    straight_ranks(g.singles@),
                ),
                None => !(straight_cond(g.singles@) && is_flush(cards@)),
            },
    {
        if Combo::are_cards_of_same_suite(cards) {
            match Combo::get_straight(g) {
                Some(c) => Some(Combo { combo_type: ComboType::StraightFlush, ranks: c.ranks }),
                None => None,
            }
        } else {
            None
        }
    }

    /// Five distinct ranks all of one suite, not sequential: a flush,
    /// tie-broken by the ranks descending.
    fn get_flush(g: &RankGroupMap, cards: &Vec<Card>) -> (r: Option<Combo>)
        requires
            cards@.len() > 0,
        ensures
            match r {
                Some(c) => g.singles@.len() == 5 && is_flush(cards@) && c@ == (
                    ComboType::Flush,
                    g.singles@,
                ),
                None => !(g.singles@.len() == 5 && is_flush(cards@)),
            },
    {
        if g.singles.len() == 5 && Combo::are_cards_of_same_suite(cards) {
            let s = &g.singles;
            let mut ranks: Vec<Rank> = Vec::new();
            ranks.push(s[0]);
            ranks.push(s[1]);
            ranks.push(s[2]);
            ranks.push(s[3]);
            ranks.push(s[4]);
            proof {
                assert(ranks@ =~= g.singles@);
            }
            Some(Combo { combo_type: ComboType::Flush, ranks })
        } else {
            None
        }
    }

    /// No pattern at all: a high-card hand, tie-broken by the ranks
    /// descending.
    fn get_high_card(g: &RankGroupMap) -> (r: Option<Combo>)
        ensures
            match r {
                Some(c) => g.singles@.len() == 5 && c@ == (ComboType::HighCard, g.singles@),
                None => g.singles@.len() != 5,
            },
    {
        if g.singles.len() == 5 {
            let s = &g.singles;
            let mut ranks: Vec<Rank> = Vec::new();
            ranks.push(s[0]);
            ranks.push(s[1]);
            ranks.push(s[2]);
            ranks.push(s[3]);
            ranks.push(s[4]);
            proof {
                assert(ranks@ =~= g.singles@);
            }
            Some(Combo { combo_type: ComboType::HighCard, ranks })
        } else {
            None
        }
    }

    /// Classifies a five-card hand, checking the category patterns in
    /// strength order and returning the first match together with its
    /// tie-break ranks.
    pub fn new(cards: &Vec<Card>) -> (combo: Combo)
        requires
            cards@.len() == 5,
            !five_of_a_kind(cards@),
        ensures
            combo@ == spec_combo(cards@),
    {
        let g = Combo::enumerate(cards);
        proof {
            lemma_no_five_counts(cards@);
            lemma_group_sizes(cards@);
        }
        if let Some(c) = Combo::get_full_house(&g) {
            proof {
                assert(rank_group(cards@, 3) =~= seq![g.triplet@[0]]);
                assert(rank_group(cards@, 2) =~= seq![g.pairs@[0]]);
                assert(spec_tiebreak(cards@) =~= seq![g.triplet@[0], g.pairs@[0]]);
            }
            c
        } else if let Some(c) = Combo::get_four_of_a_kind(&g) {
            proof {
                assert(rank_group(cards@, 4) =~= seq![g.quadruplet@[0]]);
                assert(rank_group(cards@, 1) =~= seq![g.singles@[0]]);
                assert(spec_tiebreak(cards@) =~= seq![g.quadruplet@[0], g.singles@[0]]);
            }
            c
        } else if let Some(c) = Combo::get_three_of_a_kind(&g) {
            proof {
                assert(rank_group(cards@, 3) =~= seq![g.triplet@[0]]);
                assert(rank_group(cards@, 1) =~= seq![g.singles@[0], g.singles@[1]]);
                assert(spec_tiebreak(cards@) =~= seq![
                    g.triplet@[0],
                    g.singles@[0],
                    g.singles@[1],
                ]);
            }
            c
        } else if let Some(c) = Combo::get_one_or_two_pairs(&g) {
            proof {
                if g.pairs@.len() == 2 {
                    assert(rank_group(cards@, 2) =~= seq![g.pairs@[0], g.pairs@[1]]);
                    assert(rank_group(cards@, 1) =~= seq![g.singles@[0]]);
                    assert(spec_tiebreak(cards@) =~= seq![
                        g.pairs@[0],
                        g.pairs@[1],
                        g.singles@[0],
                    ]);
                } else {
                    assert(rank_group(cards@, 2) =~= seq![g.pairs@[0]]);
                    assert(rank_group(cards@, 1) =~= seq![
                        g.singles@[0],
                        g.singles@[1],
                        g.singles@[2],
                    ]);
                    assert(spec_tiebreak(cards@) =~= seq![
                        g.pairs@[0],
                        g.singles@[0],
                        g.singles@[1],
                        g.singles@[2],
                    ]);
                }
            }
            c
        } else if let Some(c) = Combo::get_straight_flush(&g, cards) {
            c
        } else if let Some(c) = Combo::get_straight(&g) {
            c
        } else if let Some(c) = Combo::get_flush(&g, cards) {
            c
        } else if let Some(c) = Combo::get_high_card(&g) {
            c
        } else {
            // The partition of the five ranks over the four groups leaves
            // this branch no model: with no quadruplet, triplet or pair
            // group, all five ranks are singles, and the high-card check
            // accepts them.
            vstd::pervasive::unreached()
        }
    }

    /// Compares two tie-break lists lexicographically.
    fn ranks_lt_exec(a: &Vec<Rank>, b: &Vec<Rank>) -> (r: bool)
        ensures
            r == ranks_lt(a@, b@),
    {
        let n = if a.len() < b.len() {
            a.len()
        } else {
            b.len()
        };
        let mut i: usize = 0;
        proof {
            assert(a@.skip(0) =~= a@);
            assert(b@.skip(0) =~= b@);
        }
        while i < n
            invariant
                i <= n,
                n <= a@.len(),
                n <= b@.len(),
                n == a@.len() || n == b@.len(),
                ranks_lt(a@, b@) == ranks_lt(a@.skip(i as int), b@.skip(i as int)),
            decreases n - i,
        {
            let av = a[i].value();
            let bv = b[i].value();
            proof {
                assert(a@.skip(i as int)[0] == a@[i as int]);
                assert(b@.skip(i as int)[0] == b@[i as int]);
                assert(a@.skip(i as int).drop_first() =~= a@.skip(i + 1));
                assert(b@.skip(i as int).drop_first() =~= b@.skip(i + 1));
            }
            if av < bv {
                return true;
            }
            if bv < av {
                return false;
            }
            i = i + 1;
        }
        proof {
            assert(a@.skip(i as int).len() == 0 || b@.skip(i as int).len() == 0);
        }
        false
    }

    /// Whether this combo ranks strictly below `other`: weaker category,
    /// or same category and lexicographically smaller tie-break ranks.
    pub fn lt(&self, other: &Combo) -> (r: bool)
        ensures
            r == combo_lt(self@, other@),
    {
        let tv = self.combo_type.value();
        let ov = other.combo_type.value();
        if tv < ov {
            true
        } else if ov < tv {
            false
        } else {
            proof {
                lemma_cat_val_injective(self.combo_type, other.combo_type);
            }
            Combo::ranks_lt_exec(&self.ranks, &other.ranks)
        }
    }

    /// Whether this combo and `other` carry the same category and the
    /// same tie-break ranks; such hands tie.
    pub fn equals(&self, other: &Combo) -> (r: bool)
        ensures
            r == (self@ == other@),
    {
        let tv = self.combo_type.value();
        let ov = other.combo_type.value();
        if tv != ov {
            return false;
        }
        proof {
            lemma_cat_val_injective(self.combo_type, other.combo_type);
        }
        if self.ranks.len() != other.ranks.len() {
            return false;
        }
        let mut i: usize = 0;
        while i < self.ranks.len()
            invariant
                i <= self.ranks@.len(),
                self.ranks@.len() == other.ranks@.len(),
                forall|k: int| 0 <= k < i ==> self.ranks@[k] == other.ranks@[k],
            decreases self.ranks@.len() - i,
        {
            let av = self.ranks[i].value();
            let bv = other.ranks[i].value();
            if av != bv {
                return false;
            }
            proof {
                lemma_rank_val_injective(self.ranks@[i as int], other.ranks@[i as int]);
            }
            i = i + 1;
        }
        proof {
            assert(self.ranks@ =~= other.ranks@);
        }
        true
    }

    /// The hand category.
    pub fn combo_type(&self) -> (t: ComboType)
        ensures
            t == self@.0,
    {
        self.combo_type
    }

    /// The tie-break ranks, most significant first.
    pub fn ranks(&self) -> (r: Vec<Rank>)
        ensures
            r@ == self@.1,
    {
        let mut out: Vec<Rank> = Vec::new();
        let mut i: usize = 0;
        while i < self.ranks.len()
            invariant
                i <= self.ranks.len(),
                out@ == self.ranks@.take(i as int),
            decreases self.ranks.len() - i,
        {
            out.push(self.ranks[i]);
            proof {
                assert(self.ranks@.take(i + 1 as int) =~= self.ranks@.take(i as int).push(
                    self.ranks@[i as int],
                ));
            }
            i = i + 1;
        }
        proof {
            assert(self.ranks@.take(self.ranks@.len() as int) =~= self.ranks@);
        }
        out
    }
}

} // verus!

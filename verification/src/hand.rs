//! The card model: ranks, suites, cards, and the parsing of card tokens and
//! whole hand strings.
use crate::combo::Combo;
use crate::combo::spec_combo;
use vstd::prelude::*;
use vstd::string::StrSliceExecFns;

verus! {

/// One of the four card suites. Suites are unordered; they matter only for
/// equality (flush detection).
#[derive(Debug, PartialEq, Eq, Structural, Copy, Clone)]
pub enum Suite {
    Spades,
    Diamonds,
    Hearts,
    Clubs,
}

/// One of the thirteen card ranks, ordered Two lowest to Ace highest
/// (except inside the Ace-low straight, handled by the classifier).
#[derive(Debug, PartialEq, Eq, Structural, Copy, Clone)]
pub enum Rank {
    Two,
    Three,
    Four,
    Five,
    Six,
    Seven,
    Eight,
    Nine,
    Ten,
    Jack,
    Queen,
    King,
    Ace,
}

/// The position of a rank in the Two..Ace order: Two is 0, Ace is 12.
pub open spec fn rank_val(r: Rank) -> int {
    match r {
        Rank::Two => 0,
        Rank::Three => 1,
        Rank::Four => 2,
        Rank::Five => 3,
        Rank::Six => 4,
        Rank::Seven => 5,
        Rank::Eight => 6,
        Rank::Nine => 7,
        Rank::Ten => 8,
        Rank::Jack => 9,
        Rank::Queen => 10,
        Rank::King => 11,
        Rank::Ace => 12,
    }
}

/// The rank standing at a given position of the Two..Ace order.
pub open spec fn rank_of_val(v: int) -> Rank {
    if v == 0 {
        Rank::Two
    } else if v == 1 {
        Rank::Three
    } else if v == 2 {
        Rank::Four
    } else if v == 3 {
        Rank::Five
    } else if v == 4 {
        Rank::Six
    } else if v == 5 {
        Rank::Seven
    } else if v == 6 {
        Rank::Eight
    } else if v == 7 {
        Rank::Nine
    } else if v == 8 {
        Rank::Ten
    } else if v == 9 {
        Rank::Jack
    } else if v == 10 {
        Rank::Queen
    } else if v == 11 {
        Rank::King
    } else {
        Rank::Ace
    }
}

pub broadcast proof fn lemma_rank_val_bounds(r: Rank)
    ensures
        0 <= #[trigger] rank_val(r) < 13,
        rank_of_val(rank_val(r)) == r,
{
}

impl Rank {
    /// The rank's position in the Two..Ace order, as a machine integer.
    pub fn value(&self) -> (v: u8)
        ensures
            v as int == rank_val(*self),
    {
        match self {
            Rank::Two => 0,
            Rank::Three => 1,
            Rank::Four => 2,
            Rank::Five => 3,
            Rank::Six => 4,
            Rank::Seven => 5,
            Rank::Eight => 6,
            Rank::Nine => 7,
            Rank::Ten => 8,
            Rank::Jack => 9,
            Rank::Queen => 10,
            Rank::King => 11,
            Rank::Ace => 12,
        }
    }

    /// The rank standing at position `v` of the Two..Ace order.
    pub(crate) fn from_value(v: u8) -> (r: Rank)
        requires
            v < 13,
        ensures
            r == rank_of_val(v as int),
            rank_val(r) == v as int,
    {
        if v == 0 {
            Rank::Two
        } else if v == 1 {
            Rank::Three
        } else if v == 2 {
            Rank::Four
        } else if v == 3 {
            Rank::Five
        } else if v == 4 {
            Rank::Six
        } else if v == 5 {
            Rank::Seven
        } else if v == 6 {
            Rank::Eight
        } else if v == 7 {
            Rank::Nine
        } else if v == 8 {
            Rank::Ten
        } else if v == 9 {
            Rank::Jack
        } else if v == 10 {
            Rank::Queen
        } else if v == 11 {
            Rank::King
        } else {
            Rank::Ace
        }
    }
}

/// An immutable playing card: a rank and a suite.
#[derive(Debug, PartialEq, Eq, Structural, Copy, Clone)]
pub struct Card {
    pub rank: Rank,
    pub suite: Suite,
}

/// Five cards all bearing one rank. Only repeated identical tokens can
/// produce this; no category fits it, so such a hand is rejected as
/// invalid.
pub open spec fn five_of_a_kind(cards: Seq<Card>) -> bool {
    cards.len() == 5 && (forall|i: int|
        0 <= i < cards.len() ==> (#[trigger] cards[i]).rank == cards[0].rank)
}

/// The rank named by a single character, if any. The character `1` alone
/// names none: Ten is written `10` and is parsed at the token level.
pub open spec fn rank_of_char(c: char) -> Option<Rank> {
    if c == '2' {
        Some(Rank::Two)
    } else if c == '3' {
        Some(Rank::Three)
    } else if c == '4' {
        Some(Rank::Four)
    } else if c == '5' {
        Some(Rank::Five)
    } else if c == '6' {
        Some(Rank::Six)
    } else if c == '7' {
        Some(Rank::Seven)
    } else if c == '8' {
        Some(Rank::Eight)
    } else if c == '9' {
        Some(Rank::Nine)
    } else if c == 'J' {
        Some(Rank::Jack)
    } else if c == 'Q' {
        Some(Rank::Queen)
    } else if c == 'K' {
        Some(Rank::King)
    } else if c == 'A' {
        Some(Rank::Ace)
    } else {
        None
    }
}

/// The rank named by a rank token: one character out of `2`..`9`, `J`, `Q`,
/// `K`, `A`, or the two characters `10`.
pub open spec fn parse_rank(s: Seq<char>) -> Option<Rank> {
    if s.len() == 1 {
        rank_of_char(s[0])
    } else if s.len() == 2 && s[0] == '1' && s[1] == '0' {
        Some(Rank::Ten)
    } else {
        None
    }
}

/// The suite named by a single character, if any.
pub open spec fn suite_of_char(c: char) -> Option<Suite> {
    if c == 'C' {
        Some(Suite::Clubs)
    } else if c == 'D' {
        Some(Suite::Diamonds)
    } else if c == 'H' {
        Some(Suite::Hearts)
    } else if c == 'S' {
        Some(Suite::Spades)
    } else {
        None
    }
}

/// The card named by a token: a rank token followed by a suite character,
/// two or three characters in all. Any other token names no card.
pub open spec fn parse_card(s: Seq<char>) -> Option<Card> {
    if 2 <= s.len() && s.len() <= 3 {
        match (parse_rank(s.take(s.len() - 1)), suite_of_char(s[s.len() - 1])) {
            (Some(rank), Some(suite)) => Some(Card { rank, suite }),
            _ => None,
        }
    } else {
        None
    }
}

/// The separators between card tokens in a hand string.
pub open spec fn is_space_char(c: char) -> bool {
    c == ' ' || c == '\t' || c == '\n' || c == '\r'
}

/// One left-to-right pass over a hand string: `cur` holds the characters of
/// the token being read, `acc` the cards parsed so far. A separator or the
/// end of the string closes the token; tokens that name no card are dropped.
pub open spec fn cards_rec(s: Seq<char>, i: int, cur: Seq<char>, acc: Seq<Card>) -> Seq<Card>
    decreases s.len() - i,
{
    if i < 0 || i >= s.len() {
        match parse_card(cur) {
            Some(c) => acc.push(c),
            None => acc,
        }
    } else if is_space_char(s[i]) {
        cards_rec(
            s,
            i + 1,
            Seq::empty(),
            match parse_card(cur) {
                Some(c) => acc.push(c),
                None => acc,
            },
        )
    } else {
        cards_rec(s, i + 1, cur.push(s[i]), acc)
    }
}

/// The cards named by a hand string: its tokens, in order, each kept only if
/// it names a card.
pub open spec fn cards_of(s: Seq<char>) -> Seq<Card> {
    cards_rec(s, 0, Seq::empty(), Seq::empty())
}

impl Suite {
    /// Parses a suite character.
    fn new(c: char) -> (r: Option<Suite>)
        ensures
            r == suite_of_char(c),
    {
        if c == 'C' {
            Some(Suite::Clubs)
        } else if c == 'D' {
            Some(Suite::Diamonds)
        } else if c == 'H' {
            Some(Suite::Hearts)
        } else if c == 'S' {
            Some(Suite::Spades)
        } else {
            None
        }
    }
}

impl Rank {
    /// Parses a rank token.
    fn new(token: &Vec<char>) -> (r: Option<Rank>)
        ensures
            r == parse_rank(token@),
    {
        if token.len() == 1 {
            let c = token[0];
            if c == '2' {
                Some(Rank::Two)
            } else if c == '3' {
                Some(Rank::Three)
            } else if c == '4' {
                Some(Rank::Four)
            } else if c == '5' {
                Some(Rank::Five)
            } else if c == '6' {
                Some(Rank::Six)
            } else if c == '7' {
                Some(Rank::Seven)
            } else if c == '8' {
                Some(Rank::Eight)
            } else if c == '9' {
                Some(Rank::Nine)
            } else if c == 'J' {
                Some(Rank::Jack)
            } else if c == 'Q' {
                Some(Rank::Queen)
            } else if c == 'K' {
                Some(Rank::King)
            } else if c == 'A' {
                Some(Rank::Ace)
            } else {
                None
            }
        } else if token.len() == 2 && token[0] == '1' && token[1] == '0' {
            Some(Rank::Ten)
        } else {
            None
        }
    }
}

impl Card {
    /// Parses a card token.
    fn new(token: &Vec<char>) -> (r: Option<Card>)
        ensures
            r == parse_card(token@),
    {
        match Card::enumerate(token) {
            (Some(rank), Some(suite)) => Some(Card { suite, rank }),
            _ => None,
        }
    }

    /// Splits a card token into its rank and suite parts and parses each.
    fn enumerate(token: &Vec<char>) -> (r: (Option<Rank>, Option<Suite>))
        ensures
            spec_is_card_format_valid(token) ==> (r.0 == parse_rank(token@.take(token@.len() - 1))
                && r.1 == suite_of_char(token@[token@.len() - 1])),
            !spec_is_card_format_valid(token) ==> r == (Option::<Rank>::None, Option::<
                Suite,
            >::None),
    {
        if !Card::is_card_format_valid(token) {
            return (None, None);
        }
        let len = token.len();
        let mut rank_part: Vec<char> = Vec::new();
        rank_part.push(token[0]);
        if len == 3 {
            rank_part.push(token[1]);
        }
        proof {
            assert(rank_part@ =~= token@.take(token@.len() - 1));
        }
        (Rank::new(&rank_part), Suite::new(token[len - 1]))
    }

    /// A card token holds two or three characters.
    fn is_card_format_valid(token: &Vec<char>) -> (b: bool)
        ensures
            b == spec_is_card_format_valid(token),
    {
        let len = token.len();
        len >= 2 && len <= 3
    }
}

pub open spec fn spec_is_card_format_valid(token: &Vec<char>) -> bool {
    2 <= token@.len() <= 3
}

/// A hand string is valid when its tokens name exactly five cards and the
/// five do not all bear one rank.
pub open spec fn hand_valid(s: Seq<char>) -> bool {
    cards_of(s).len() == 5 && !five_of_a_kind(cards_of(s))
}

/// A validated hand: the original input string (winners are handed back as
/// this very value), its five cards, and the combo derived from them.
#[derive(Debug, PartialEq, Eq)]
pub struct Hand<'a> {
    pub input: &'a str,
    pub cards: Vec<Card>,
    pub combo: Combo,
}

impl<'a> Hand<'a> {
    /// Parses a hand string. Returns the hand exactly when the string is
    /// valid: tokens naming no card are dropped, and anything other than
    /// five named cards, or five cards of one rank, is rejected.
    pub fn new(input: &'a str) -> (r: Option<Hand<'a>>)
        ensures
            match r {
                Some(h) => hand_valid(input@) && h.input == input && h.cards@ == cards_of(input@)
                    && h.combo@ == spec_combo(cards_of(input@)),
                None => !hand_valid(input@),
            },
    {
        let cards = parse_cards(input);
        if cards.len() != 5 {
            return None;
        }
        let five = cards[0].rank == cards[1].rank && cards[0].rank == cards[2].rank
            && cards[0].rank == cards[3].rank && cards[0].rank == cards[4].rank;
        if five {
            proof {
                assert forall|i: int|
                    0 <= i < cards@.len() implies (#[trigger] cards@[i]).rank
                    == cards@[0].rank by {}
            }
            return None;
        }
        proof {
            if five_of_a_kind(cards@) {
                assert(cards@[1].rank == cards@[0].rank);
                assert(cards@[2].rank == cards@[0].rank);
                assert(cards@[3].rank == cards@[0].rank);
                assert(cards@[4].rank == cards@[0].rank);
            }
        }
        let combo = Combo::new(&cards);
        Some(Hand { input, cards, combo })
    }
}

/// Reads a hand string character by character and collects the cards its
/// tokens name, dropping tokens that name none.
fn parse_cards(input: &str) -> (cards: Vec<Card>)
    ensures
        cards@ == cards_of(input@),
{
    let n = input.unicode_len();
    let mut i: usize = 0;
    let mut cur: Vec<char> = Vec::new();
    let mut acc: Vec<Card> = Vec::new();
    while i < n
        invariant
            n == input@.len(),
            i <= n,
            cards_rec(input@, i as int, cur@, acc@) == cards_of(input@),
        decreases n - i,
    {
        let c = input.get_char(i);
        if c == ' ' || c == '\t' || c == '\n' || c == '\r' {
            match Card::new(&cur) {
                Some(card) => acc.push(card),
                None => {},
            }
            cur = Vec::new();
        } else {
            cur.push(c);
        }
        i = i + 1;
    }
    match Card::new(&cur) {
        Some(card) => acc.push(card),
        None => {},
    }
    acc
}

} // verus!


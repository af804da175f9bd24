use vstd::multiset::Multiset;
use vstd::prelude::*;

verus! {

/// One of the four suits of a standard pack.
#[derive(Debug, Clone, Copy, PartialEq, Eq, Structural)]
pub enum Suit {
    Spades,
    Heart,
    Club,
    Diamond,
}

/// The suit of the `i`-th block of thirteen cards in a fresh pack.
pub open spec fn suit_at(i: int) -> Suit {
    if i == 0 {
        Suit::Heart
    } else if i == 1 {
        Suit::Diamond
    } else if i == 2 {
        Suit::Spades
    } else {
        Suit::Club
    }
}

impl Suit {
    /// The four suits, in the order in which a fresh pack holds them.
    pub fn all() -> (r: [Suit; 4])
        ensures
            forall|i: int| 0 <= i < 4 ==> #[trigger] r@[i] == suit_at(i),
    {
        [Suit::Heart, Suit::Diamond, Suit::Spades, Suit::Club]
    }
}

/// A card's rank: 1 is the Ace, 11 to 13 are Jack, Queen and King.
#[derive(Debug, Clone, Copy, PartialEq, Eq, Structural)]
pub struct Rank(pub u8);

pub const ACE: u8 = 1;

pub const KING: u8 = 13;

impl Rank {
    pub fn new(value: u8) -> (r: Rank)
        requires
            ACE <= value <= KING,
        ensures
            r.0 == value,
    {
        Rank(value)
    }

    /// Every rank, from the Ace up to the King.
    pub fn all() -> (r: Vec<Rank>)
        ensures
            r@.len() == KING as int,
            forall|i: int| 0 <= i < KING ==> #[trigger] r@[i].0 == i + 1,
    {
        let mut ranks: Vec<Rank> = Vec::new();
        let mut n: u8 = ACE;
        while n <= KING
            invariant
                ACE <= n <= KING + 1,
                ranks@.len() == n - 1,
                forall|i: int| 0 <= i < ranks@.len() ==> #[trigger] ranks@[i].0 == i + 1,
            decreases KING + 1 - n,
        {
            ranks.push(Rank::new(n));
            n = n + 1;
        }
        ranks
    }
}

/// Whether a card shows its rank and suit.
#[derive(Debug, Clone, Copy, PartialEq, Eq, Structural)]
pub enum Face {
    Up,
    Down,
}

/// A playing card: a fixed identity (rank and suit) and a face that can be turned.
#[derive(Debug, Clone, Copy, PartialEq, Eq, Structural)]
pub struct Card {
    pub rank: Rank,
    pub suit: Suit,
    pub face: Face,
}

/// What identifies a card within the pack, whichever way it faces.
pub type CardId = (u8, Suit);

impl Card {
    pub open spec fn id(self) -> CardId {
        (self.rank.0, self.suit)
    }

    pub open spec fn is_up(self) -> bool {
        self.face == Face::Up
    }

    /// The same card, facing the given way.
    pub open spec fn facing(self, face: Face) -> Card {
        Card { rank: self.rank, suit: self.suit, face }
    }

    /// A new card lies face down.
    pub fn new(rank: Rank, suit: Suit) -> (r: Card)
        ensures
            r == (Card { rank, suit, face: Face::Down }),
    {
        Card { rank, suit, face: Face::Down }
    }

    pub fn is_visible(&self) -> (r: bool)
        ensures
            r == self.is_up(),
    {
        match self.face {
            Face::Up => true,
            Face::Down => false,
        }
    }

    pub fn turn_face_up(&mut self)
        ensures
            *final(self) == old(self).facing(Face::Up),
    {
        self.face = Face::Up;
    }

    pub fn turn_face_down(&mut self)
        ensures
            *final(self) == old(self).facing(Face::Down),
    {
        self.face = Face::Down;
    }
}

/// The identities of a sequence of cards, in order.
pub open spec fn ids(p: Seq<Card>) -> Seq<CardId> {
    p.map_values(|c: Card| c.id())
}

/// The identities of a sequence of cards, as a multiset.
pub open spec fn cards_ms(p: Seq<Card>) -> Multiset<CardId> {
    ids(p).to_multiset()
}

/// The `i`-th card of a fresh pack: suits in the order of `Suit::all`, each from Ace to King.
pub open spec fn standard_card(i: int) -> Card {
    Card { rank: Rank((i % 13 + 1) as u8), suit: suit_at(i / 13), face: Face::Down }
}

pub const PACK_SIZE: usize = 52;

/// A fresh pack of the 52 standard cards, face down.
pub open spec fn standard_pack() -> Seq<Card> {
    Seq::new(PACK_SIZE as nat, |i: int| standard_card(i))
}

/// The 52 standard card identities, each once.
pub open spec fn standard_ms() -> Multiset<CardId> {
    cards_ms(standard_pack())
}


/// Ranks from the Ace to the King make the standard identities.
pub open spec fn is_standard_id(id: CardId) -> bool {
    ACE <= id.0 <= KING
}

/// Where the card with suit `s` sits among the suits of a fresh pack.
pub open spec fn suit_index(s: Suit) -> int {
    match s {
        Suit::Heart => 0,
        Suit::Diamond => 1,
        Suit::Spades => 2,
        Suit::Club => 3,
    }
}

/// The standard pack holds each standard identity exactly once, and nothing else.
pub proof fn lemma_standard_ms_count(id: CardId)
    ensures
        standard_ms().count(id) == if is_standard_id(id) {
            1nat
        } else {
            0nat
        },
{
    broadcast use vstd::seq_lib::group_to_multiset_ensures;

    let s = ids(standard_pack());
    assert forall|i: int, j: int| 0 <= i < s.len() && 0 <= j < s.len() && i != j implies s[i]
        != s[j] by {
        vstd::arithmetic::div_mod::lemma_fundamental_div_mod(i, 13);
        vstd::arithmetic::div_mod::lemma_fundamental_div_mod(j, 13);
        assert(0 <= i / 13 < 4);
        assert(0 <= j / 13 < 4);
    }
    assert(s.no_duplicates());
    s.lemma_multiset_has_no_duplicates();
    if is_standard_id(id) {
        let i = 13 * suit_index(id.1) + id.0 - 1;
        vstd::arithmetic::div_mod::lemma_fundamental_div_mod_converse(
            i,
            13,
            suit_index(id.1),
            id.0 - 1,
        );
        assert(s[i] == id);
        assert(s.contains(id));
    } else {
        assert(!s.contains(id));
    }
}

/// A fresh, unshuffled pack of the 52 standard cards, all face down.
pub fn get_standard_pack() -> (r: Vec<Card>)
    ensures
        r@ == standard_pack(),
{
    let suits = Suit::all();
    let ranks = Rank::all();
    let mut pack: Vec<Card> = Vec::new();
    let mut s: usize = 0;
    while s < 4
        invariant
            0 <= s <= 4,
            pack@ =~= Seq::new((13 * s) as nat, |i: int| standard_card(i)),
            forall|i: int| 0 <= i < 4 ==> #[trigger] suits@[i] == suit_at(i),
            ranks@.len() == 13,
            forall|i: int| 0 <= i < 13 ==> #[trigger] ranks@[i].0 == i + 1,
        decreases 4 - s,
    {
        let mut r: usize = 0;
        while r < 13
            invariant
                0 <= s < 4,
                0 <= r <= 13,
                pack@ =~= Seq::new((13 * s + r) as nat, |i: int| standard_card(i)),
                forall|i: int| 0 <= i < 4 ==> #[trigger] suits@[i] == suit_at(i),
                ranks@.len() == 13,
                forall|i: int| 0 <= i < 13 ==> #[trigger] ranks@[i].0 == i + 1,
            decreases 13 - r,
        {
            let card = Card::new(ranks[r], suits[s]);
            proof {
                let k = 13 * s + r;
                vstd::arithmetic::div_mod::lemma_fundamental_div_mod_converse(
                    k as int,
                    13,
                    s as int,
                    r as int,
                );
                assert(ranks@[r as int].0 == r + 1);
                assert(suits@[s as int] == suit_at(s as int));
                assert(card == standard_card(k as int));
            }
            pack.push(card);
            r = r + 1;
        }
        s = s + 1;
    }
    pack
}

} // verus!

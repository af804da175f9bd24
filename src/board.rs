use vstd::multiset::Multiset;
use vstd::prelude::*;

use rand::seq::SliceRandom;

use crate::card::{
    cards_ms, get_standard_pack, ids, is_standard_id, lemma_standard_ms_count, standard_ms, standard_pack, Card, CardId, Face, ACE, PACK_SIZE,
};

verus! {

broadcast use {vstd::seq_lib::group_to_multiset_ensures, vstd::multiset::group_multiset_axioms};

/// An ordered pile of cards; its top is the last card.
pub type Pile = Vec<Card>;

pub const NUM_TABLEAU_PILES: usize = 7;

pub const NUM_FOUNDATIONS: usize = 4;

/// A place that the player can address: the stock, or a tableau pile by index.
#[derive(Debug, Clone, Copy, PartialEq, Eq, Structural)]
pub enum Target {
    Stock,
    Pile(usize),
}

impl Target {
    /// The stock and the seven tableau piles.
    pub open spec fn is_valid(self) -> bool {
        match self {
            Target::Stock => true,
            Target::Pile(i) => i < NUM_TABLEAU_PILES,
        }
    }
}

/// The identities held by a sequence of piles, as a multiset.
pub open spec fn piles_ms(ps: Seq<Seq<Card>>) -> Multiset<CardId>
    decreases ps.len(),
{
    if ps.len() == 0 {
        Multiset::empty()
    } else {
        piles_ms(ps.drop_last()).add(cards_ms(ps.last()))
    }
}

/// A foundation may take `c` when it is empty and `c` is an Ace, or when its top card
/// has the suit of `c` and a rank one below.
pub open spec fn accepts(foundation: Seq<Card>, c: Card) -> bool {
    if foundation.len() == 0 {
        c.rank.0 == ACE
    } else {
        foundation.last().suit == c.suit && c.rank.0 == foundation.last().rank.0 + 1
    }
}

/// The index of the first foundation from `i` on that accepts `c`, or `fs.len()` if none does.
pub open spec fn first_accepting(fs: Seq<Seq<Card>>, c: Card, i: int) -> int
    decreases fs.len() - i,
{
    if i < 0 || i >= fs.len() {
        fs.len() as int
    } else if accepts(fs[i], c) {
        i
    } else {
        first_accepting(fs, c, i + 1)
    }
}

/// A foundation is built up from the Ace, one rank at a time, in a single suit.
pub open spec fn is_ascending(foundation: Seq<Card>) -> bool {
    forall|k: int|
        0 <= k < foundation.len() ==> #[trigger] foundation[k].rank.0 == k + 1
            && foundation[k].suit == foundation[0].suit
}

/// The contents of a board, pile by pile.
pub struct BoardView {
    pub tableau: Seq<Seq<Card>>,
    pub foundations: Seq<Seq<Card>>,
    pub stock: Seq<Card>,
    pub waste: Seq<Card>,
}

impl BoardView {
    pub open spec fn valid_target(self, t: Target) -> bool {
        match t {
            Target::Stock => true,
            Target::Pile(i) => i < self.tableau.len(),
        }
    }

    pub open spec fn pile(self, t: Target) -> Seq<Card> {
        match t {
            Target::Stock => self.stock,
            Target::Pile(i) => self.tableau[i as int],
        }
    }

    pub open spec fn with_pile(self, t: Target, p: Seq<Card>) -> BoardView {
        match t {
            Target::Stock => BoardView {
                tableau: self.tableau,
                foundations: self.foundations,
                stock: p,
                waste: self.waste,
            },
            Target::Pile(i) => BoardView {
                tableau: self.tableau.update(i as int, p),
                foundations: self.foundations,
                stock: self.stock,
                waste: self.waste,
            },
        }
    }

    /// Every card on the board, by identity.
    pub open spec fn deck_ms(self) -> Multiset<CardId> {
        cards_ms(self.stock).add(cards_ms(self.waste)).add(piles_ms(self.foundations)).add(
            piles_ms(self.tableau),
        )
    }

    /// Seven tableau piles and four foundations; the board holds each of the 52 standard
    /// cards exactly once; each foundation ascends from the Ace in one suit.
    pub open spec fn wf(self) -> bool {
        &&& self.tableau.len() == NUM_TABLEAU_PILES
        &&& self.foundations.len() == NUM_FOUNDATIONS
        &&& self.deck_ms() == standard_ms()
        &&& forall|f: int| 0 <= f < self.foundations.len() ==> #[trigger] is_ascending(
            self.foundations[f],
        )
    }

    /// The target before `t` in the cycle Stock, Pile(0), ..., Pile(last).
    pub open spec fn previous_target(self, t: Target) -> Target {
        match t {
            Target::Stock => Target::Pile((self.tableau.len() - 1) as usize),
            Target::Pile(n) => if n == 0 {
                Target::Stock
            } else {
                Target::Pile((n - 1) as usize)
            },
        }
    }

    /// The target after `t` in the cycle Stock, Pile(0), ..., Pile(last).
    pub open spec fn next_target(self, t: Target) -> Target {
        match t {
            Target::Stock => Target::Pile(0),
            Target::Pile(n) => if n == self.tableau.len() - 1 {
                Target::Stock
            } else {
                Target::Pile((n + 1) as usize)
            },
        }
    }
}


impl BoardView {
    /// Whether the top `n` cards of `src` may go onto `dst`: never onto the stock; onto an
    /// empty pile or a face-down top card always; otherwise only onto a top card one rank
    /// above the bottom card of the run.
    pub open spec fn can_transfer(self, src: Target, dst: Target, n: int) -> bool {
        let s = self.pile(src);
        let d = self.pile(dst);
        &&& dst != Target::Stock
        &&& 1 <= n <= s.len()
        &&& (d.len() == 0 || !d.last().is_up() || d.last().rank.0 == s[s.len() - n].rank.0 + 1)
    }

    /// The board after the top `n` cards of `src` are moved, in order, onto `dst`.
    pub open spec fn after_transfer(self, src: Target, dst: Target, n: int) -> BoardView {
        if src == dst {
            self
        } else {
            let s = self.pile(src);
            let k = s.len() - n;
            self.with_pile(src, s.take(k)).with_pile(dst, self.pile(dst) + s.skip(k))
        }
    }

    /// The foundation that the top card of `t` would go to, or the number of foundations.
    pub open spec fn foundation_for(self, t: Target) -> int {
        first_accepting(self.foundations, self.pile(t).last(), 0)
    }

    /// Whether the top card of `t` is face up and some foundation accepts it.
    pub open spec fn can_build(self, t: Target) -> bool {
        let p = self.pile(t);
        &&& p.len() > 0
        &&& p.last().is_up()
        &&& self.foundation_for(t) < self.foundations.len()
    }

    /// The board after the top card of `t` goes onto the first foundation that accepts it.
    pub open spec fn after_build(self, t: Target) -> BoardView {
        let p = self.pile(t);
        let f = self.foundation_for(t);
        let w = self.with_pile(t, p.drop_last());
        BoardView {
            tableau: w.tableau,
            foundations: self.foundations.update(f, self.foundations[f].push(p.last())),
            stock: w.stock,
            waste: w.waste,
        }
    }

    /// Whether the stock has a face-up top card.
    pub open spec fn can_discard(self) -> bool {
        self.stock.len() > 0 && self.stock.last().is_up()
    }

    /// The board after the stock's top card goes face up onto the waste.
    pub open spec fn after_discard(self) -> BoardView {
        BoardView {
            tableau: self.tableau,
            foundations: self.foundations,
            stock: self.stock.drop_last(),
            waste: self.waste.push(self.stock.last().facing(Face::Up)),
        }
    }

    /// Whether the top card of `t` is face down.
    pub open spec fn can_turn_up(self, t: Target) -> bool {
        let p = self.pile(t);
        p.len() > 0 && !p.last().is_up()
    }

    /// The board after the top card of `t` is turned face up, in place.
    pub open spec fn after_turn_up(self, t: Target) -> BoardView {
        let p = self.pile(t);
        self.with_pile(t, p.update(p.len() - 1, p.last().facing(Face::Up)))
    }
}

/// Where column `i` starts in the dealt pack: columns before it hold 1, 2, ..., i cards.
pub open spec fn column_start(i: int) -> int
    decreases i,
{
    if i <= 0 {
        0
    } else {
        column_start(i - 1) + i
    }
}

/// Column `i` as dealt from `pack`: `i + 1` cards, the last one face up.
pub open spec fn dealt_column(pack: Seq<Card>, i: int) -> Seq<Card> {
    Seq::new(
        (i + 1) as nat,
        |j: int| pack[column_start(i) + j].facing(if j == i { Face::Up } else { Face::Down }),
    )
}

pub const DEALT_TO_TABLEAU: usize = 28;

/// The board dealt from `pack`: the columns in turn from the front of the pack, the rest
/// face down as the stock, empty foundations and waste.
pub open spec fn dealt(pack: Seq<Card>) -> BoardView {
    BoardView {
        tableau: Seq::new(NUM_TABLEAU_PILES as nat, |i: int| dealt_column(pack, i)),
        foundations: Seq::new(NUM_FOUNDATIONS as nat, |f: int| Seq::<Card>::empty()),
        stock: Seq::new(
            (pack.len() - DEALT_TO_TABLEAU) as nat,
            |j: int| pack[DEALT_TO_TABLEAU + j].facing(Face::Down),
        ),
        waste: Seq::empty(),
    }
}

impl BoardView {
    /// Column `i` has `i + 1` cards with only the last face up; the stock has 24 face-down
    /// cards; the waste and the foundations are empty.
    pub open spec fn has_deal_shape(self) -> bool {
        &&& self.tableau.len() == NUM_TABLEAU_PILES
        &&& forall|i: int| 0 <= i < NUM_TABLEAU_PILES ==> #[trigger] self.tableau[i].len() == i + 1
        &&& forall|i: int, j: int|
            0 <= i < NUM_TABLEAU_PILES && 0 <= j <= i ==> (#[trigger] self.tableau[i][j]).is_up()
                == (j == i)
        &&& self.stock.len() == 24
        &&& forall|j: int| 0 <= j < self.stock.len() ==> !(#[trigger] self.stock[j]).is_up()
        &&& self.waste.len() == 0
        &&& self.foundations.len() == NUM_FOUNDATIONS
        &&& forall|f: int| 0 <= f < NUM_FOUNDATIONS ==> (#[trigger] self.foundations[f]).len() == 0
    }
}

/// The board's piles as sequences of cards.
pub open spec fn piles_view(ps: Seq<Pile>) -> Seq<Seq<Card>> {
    ps.map_values(|p: Pile| p@)
}

proof fn lemma_cards_ms_concat(a: Seq<Card>, b: Seq<Card>)
    ensures
        cards_ms(a + b) =~= cards_ms(a).add(cards_ms(b)),
{
    assert(ids(a + b) =~= ids(a) + ids(b));
    vstd::seq_lib::lemma_multiset_commutative(ids(a), ids(b));
}

proof fn lemma_cards_ms_push(a: Seq<Card>, c: Card)
    ensures
        cards_ms(a.push(c)) =~= cards_ms(a).insert(c.id()),
{
    assert(ids(a.push(c)) =~= ids(a).push(c.id()));
}

/// Splitting the multiset of a sequence of piles at pile `i`.
proof fn lemma_piles_ms_remove(ps: Seq<Seq<Card>>, i: int)
    requires
        0 <= i < ps.len(),
    ensures
        piles_ms(ps) =~= piles_ms(ps.remove(i)).add(cards_ms(ps[i])),
    decreases ps.len(),
{
    if i == ps.len() - 1 {
        assert(ps.remove(i) =~= ps.drop_last());
    } else {
        lemma_piles_ms_remove(ps.drop_last(), i);
        assert(ps.drop_last().remove(i) =~= ps.remove(i).drop_last());
        assert(ps.remove(i).last() == ps.last());
    }
}

proof fn lemma_piles_ms_update(ps: Seq<Seq<Card>>, i: int, p: Seq<Card>)
    requires
        0 <= i < ps.len(),
    ensures
        piles_ms(ps.update(i, p)).add(cards_ms(ps[i])) =~= piles_ms(ps).add(cards_ms(p)),
{
    lemma_piles_ms_remove(ps, i);
    lemma_piles_ms_remove(ps.update(i, p), i);
    assert(ps.update(i, p).remove(i) =~= ps.remove(i));
}

/// Replacing one pile changes the board's multiset by exactly that pile.
proof fn lemma_with_pile_ms(b: BoardView, t: Target, p: Seq<Card>)
    requires
        b.valid_target(t),
    ensures
        b.with_pile(t, p).deck_ms().add(cards_ms(b.pile(t))) =~= b.deck_ms().add(cards_ms(p)),
{
    let lhs = b.with_pile(t, p).deck_ms().add(cards_ms(b.pile(t)));
    let rhs = b.deck_ms().add(cards_ms(p));
    if let Target::Pile(i) = t {
        let old_t = piles_ms(b.tableau);
        let new_t = piles_ms(b.tableau.update(i as int, p));
        lemma_piles_ms_update(b.tableau, i as int, p);
        assert forall|v: CardId| #[trigger] lhs.count(v) == rhs.count(v) by {
            assert(new_t.add(cards_ms(b.pile(t))).count(v) == old_t.add(cards_ms(p)).count(v));
        }
    }
    assert(lhs =~= rhs);
}

/// Turning a card over does not change which cards a pile holds.
proof fn lemma_cards_ms_turn(p: Seq<Card>, k: int, face: Face)
    requires
        0 <= k < p.len(),
    ensures
        cards_ms(p.update(k, p[k].facing(face))) == cards_ms(p),
{
    assert(ids(p.update(k, p[k].facing(face))) =~= ids(p));
}

/// Two orderings of the same cards hold the same identities.
proof fn lemma_cards_ms_permutation(a: Seq<Card>, b: Seq<Card>)
    requires
        a.to_multiset() == b.to_multiset(),
    ensures
        cards_ms(a) == cards_ms(b),
    decreases a.len(),
{
    if a.len() == 0 {
        assert(a.to_multiset().len() == 0);
        assert(b.to_multiset().len() == 0);
        assert(ids(a) =~= ids(b));
    } else {
        let x = a.last();
        assert(a.drop_last().push(x) =~= a);
        assert(a.to_multiset().count(x) > 0);
        assert(b.contains(x));
        let k = choose|k: int| 0 <= k < b.len() && b[k] == x;
        assert(b.remove(k).to_multiset() =~= a.drop_last().to_multiset());
        lemma_cards_ms_permutation(a.drop_last(), b.remove(k));
        lemma_cards_ms_push(a.drop_last(), x);
        assert(ids(b).remove(k) =~= ids(b.remove(k)));
        assert(ids(b)[k] == x.id());
        assert(cards_ms(b) =~= cards_ms(b.remove(k)).insert(x.id()));
    }
}


/// The piles of a game: seven tableau piles, four foundations, the stock and the waste.
#[derive(Debug)]
pub struct Board {
    tableau: Vec<Pile>,
    foundations: Vec<Pile>,
    stock: Pile,
    waste: Pile,
}

impl View for Board {
    type V = BoardView;

    closed spec fn view(&self) -> BoardView {
        BoardView {
            tableau: piles_view(self.tableau@),
            foundations: piles_view(self.foundations@),
            stock: self.stock@,
            waste: self.waste@,
        }
    }
}

/// Relies on rand's `SliceRandom::shuffle` with `rand::thread_rng()`: it only swaps
/// elements, so the pack ends as a reordering of itself.
#[verifier::external_body]
fn shuffle_pack(pack: &mut Vec<Card>)
    ensures
        final(pack)@.to_multiset() == old(pack)@.to_multiset(),
{
    pack.shuffle(&mut rand::thread_rng());
}

impl Board {
    pub open spec fn wf(&self) -> bool {
        self@.wf()
    }

    /// A freshly shuffled and dealt game.
    pub fn new() -> (r: Board)
        ensures
            r.wf(),
            r@.has_deal_shape(),
    {
        let mut pack = get_standard_pack();
        shuffle_pack(&mut pack);
        proof {
            lemma_cards_ms_permutation(pack@, standard_pack());
        }
        Board::deal(pack)
    }

    /// Deals `pack`, which holds each of the 52 standard cards once: column `i` takes the
    /// next `i + 1` cards with only the last face up; the other 24 form the face-down stock.
    pub fn deal(pack: Vec<Card>) -> (r: Board)
        requires
            cards_ms(pack@) == standard_ms(),
        ensures
            r.wf(),
            r@ == dealt(pack@),
            r@.has_deal_shape(),
    {
        proof {
            assert(ids(pack@).to_multiset().len() == ids(standard_pack()).to_multiset().len());
        }
        let mut tableau: Vec<Pile> = Vec::new();
        let mut k: usize = 0;
        let mut col: usize = 0;
        while col < NUM_TABLEAU_PILES
            invariant
                pack@.len() == PACK_SIZE,
                col <= NUM_TABLEAU_PILES,
                k == column_start(col as int),
                k <= DEALT_TO_TABLEAU,
                piles_view(tableau@) =~= Seq::new(col as nat, |i: int| dealt_column(pack@, i)),
                piles_ms(piles_view(tableau@)) == cards_ms(pack@.take(k as int)),
            decreases NUM_TABLEAU_PILES - col,
        {
            proof {
                reveal_with_fuel(column_start, 8);
                assert(column_start(col + 1) == k + col + 1);
                assert(k + col + 1 <= DEALT_TO_TABLEAU) by {
                    assert(col == 0 || col == 1 || col == 2 || col == 3 || col == 4 || col == 5
                        || col == 6);
                }
            }
            let mut pile: Pile = Vec::new();
            let mut j: usize = 0;
            while j <= col
                invariant
                    pack@.len() == PACK_SIZE,
                    col < NUM_TABLEAU_PILES,
                    k + col + 1 <= DEALT_TO_TABLEAU,
                    k == column_start(col as int),
                    j <= col + 1,
                    pile@ =~= dealt_column(pack@, col as int).take(j as int),
                decreases col + 1 - j,
            {
                let mut card = pack[k + j];
                if j == col {
                    card.turn_face_up();
                } else {
                    card.turn_face_down();
                }
                pile.push(card);
                j = j + 1;
            }
            proof {
                let run = pack@.subrange(k as int, k + col + 1);
                assert(pile@ =~= dealt_column(pack@, col as int));
                assert(ids(pile@) =~= ids(run));
                assert(pack@.take(k + col + 1) =~= pack@.take(k as int) + run);
                lemma_cards_ms_concat(pack@.take(k as int), run);
                let before = piles_view(tableau@);
                assert(piles_view(tableau@.push(pile)) =~= before.push(pile@));
                assert(before.push(pile@).drop_last() =~= before);
            }
            tableau.push(pile);
            k = k + col + 1;
            col = col + 1;
        }
        proof {
            reveal_with_fuel(column_start, 8);
        }
        let mut stock: Pile = Vec::new();
        while k < PACK_SIZE
            invariant
                pack@.len() == PACK_SIZE,
                DEALT_TO_TABLEAU <= k <= PACK_SIZE,
                stock@ =~= Seq::new(
                    (k - DEALT_TO_TABLEAU) as nat,
                    |j: int| pack@[DEALT_TO_TABLEAU + j].facing(Face::Down),
                ),
            decreases PACK_SIZE - k,
        {
            let mut card = pack[k];
            card.turn_face_down();
            stock.push(card);
            k = k + 1;
        }
        let mut foundations: Vec<Pile> = Vec::new();
        let mut f: usize = 0;
        while f < NUM_FOUNDATIONS
            invariant
                f <= NUM_FOUNDATIONS,
                foundations@.len() == f,
                forall|i: int| 0 <= i < f ==> (#[trigger] foundations@[i])@.len() == 0,
            decreases NUM_FOUNDATIONS - f,
        {
            let empty: Pile = Vec::new();
            foundations.push(empty);
            f = f + 1;
        }
        let board = Board { tableau, foundations, stock, waste: Vec::new() };
        proof {
            let v = board@;
            assert(v.tableau =~= dealt(pack@).tableau);
            assert(v.stock =~= dealt(pack@).stock);
            assert(v.waste =~= dealt(pack@).waste);
            assert forall|i: int| 0 <= i < NUM_FOUNDATIONS implies v.foundations[i] =~= dealt(
                pack@,
            ).foundations[i] by {
                assert(v.foundations[i] == foundations@[i]@);
            }
            assert(v.foundations =~= dealt(pack@).foundations);
            let tail = pack@.subrange(DEALT_TO_TABLEAU as int, PACK_SIZE as int);
            assert(ids(v.stock) =~= ids(tail));
            assert(pack@ =~= pack@.take(DEALT_TO_TABLEAU as int) + tail);
            lemma_cards_ms_concat(pack@.take(DEALT_TO_TABLEAU as int), tail);
            lemma_piles_ms_empty(v.foundations);
            assert(cards_ms(v.waste) =~= Multiset::empty());
            assert(v.deck_ms() =~= cards_ms(pack@));
            lemma_dealt_shape(pack@);
        }
        board
    }
}


impl Board {
    pub fn get_stock(&self) -> (r: &Pile)
        ensures
            r@ == self@.stock,
    {
        &self.stock
    }

    pub fn get_waste(&self) -> (r: &Pile)
        ensures
            r@ == self@.waste,
    {
        &self.waste
    }

    pub fn get_foundations(&self) -> (r: &Vec<Pile>)
        ensures
            piles_view(r@) == self@.foundations,
    {
        &self.foundations
    }

    pub fn get_tableau(&self) -> (r: &Vec<Pile>)
        ensures
            piles_view(r@) == self@.tableau,
    {
        &self.tableau
    }

    /// The pile at `target`; `None` only for a tableau index past the last pile.
    pub fn get(&self, target: Target) -> (r: Option<&Pile>)
        ensures
            r.is_some() == self@.valid_target(target),
            r.is_some() ==> r.unwrap()@ == self@.pile(target),
    {
        match target {
            Target::Stock => Some(&self.stock),
            Target::Pile(index) => {
                if index < self.tableau.len() {
                    Some(&self.tableau[index])
                } else {
                    None
                }
            },
        }
    }

    fn pile_ref(&self, target: Target) -> (r: &Pile)
        requires
            self@.valid_target(target),
        ensures
            r@ == self@.pile(target),
    {
        match target {
            Target::Stock => &self.stock,
            Target::Pile(index) => &self.tableau[index],
        }
    }

    /// The target before `target`, cycling from the stock back to the last tableau pile.
    pub fn get_previous_target(&self, target: Target) -> (r: Target)
        requires
            self.wf(),
            self@.valid_target(target),
        ensures
            r == self@.previous_target(target),
            self@.valid_target(r),
    {
        match target {
            Target::Stock => Target::Pile(self.tableau.len() - 1),
            Target::Pile(n) => if n == 0 {
                Target::Stock
            } else {
                Target::Pile(n - 1)
            },
        }
    }

    /// The target after `target`, cycling from the last tableau pile back to the stock.
    pub fn get_next_target(&self, target: Target) -> (r: Target)
        requires
            self.wf(),
            self@.valid_target(target),
        ensures
            r == self@.next_target(target),
            self@.valid_target(r),
    {
        match target {
            Target::Stock => Target::Pile(0),
            Target::Pile(n) => if n == self.tableau.len() - 1 {
                Target::Stock
            } else {
                Target::Pile(n + 1)
            },
        }
    }

    /// Moves the top `num_cards` cards of `source` onto `dest` if the move is legal, and
    /// says whether it did. A run longer than its pile, or an empty run, is not legal.
    pub fn maybe_transfer(&mut self, source: Target, dest: Target, num_cards: usize) -> (r: bool)
        requires
            old(self).wf(),
            old(self)@.valid_target(source),
            old(self)@.valid_target(dest),
        ensures
            final(self).wf(),
            r == old(self)@.can_transfer(source, dest, num_cards as int),
            !r ==> final(self)@ == old(self)@,
            final(self)@ == if r {
                old(self)@.after_transfer(source, dest, num_cards as int)
            } else {
                old(self)@
            },
    {
        if dest == Target::Stock {
            // The stock takes no cards.
            return false;
        }
        let source_len = self.pile_ref(source).len();
        if num_cards == 0 || num_cards > source_len {
            return false;
        }
        let dest_pile = self.pile_ref(dest);
        // An empty pile or a face-down top card takes any run...
        let legal = if dest_pile.len() == 0 {
            true
        } else {
            let top = dest_pile[dest_pile.len() - 1];
            if !top.is_visible() {
                true
            } else {
                // ... otherwise the run's bottom card must be one rank below the top card.
                let bottom = self.pile_ref(source)[source_len - num_cards];
                top.rank.0 as u16 == bottom.rank.0 as u16 + 1
            }
        };
        if legal {
            self.transfer(source, dest, num_cards);
        }
        legal
    }

    fn transfer(&mut self, source: Target, dest: Target, num_cards: usize)
        requires
            old(self).wf(),
            old(self)@.valid_target(source),
            old(self)@.valid_target(dest),
            1 <= num_cards <= old(self)@.pile(source).len(),
        ensures
            final(self).wf(),
            final(self)@ == old(self)@.after_transfer(source, dest, num_cards as int),
    {
        if source == dest {
            return;
        }
        let ghost b0 = self@;
        let k = self.pile_ref(source).len() - num_cards;
        let mut run = match source {
            Target::Stock => self.stock.split_off(k),
            Target::Pile(i) => self.tableau[i].split_off(k),
        };
        let ghost b1 = self@;
        assert(b1 =~= b0.with_pile(source, b0.pile(source).take(k as int))) by {
            if let Target::Pile(i) = source {
                assert(b1.tableau =~= b0.tableau.update(i as int, b0.pile(source).take(k as int)));
            }
        }
        assert(run@ =~= b0.pile(source).skip(k as int));
        match dest {
            Target::Stock => self.stock.append(&mut run),
            Target::Pile(j) => self.tableau[j].append(&mut run),
        }
        proof {
            let s = b0.pile(source);
            let a = s.take(k as int);
            let r = s.skip(k as int);
            let d = b0.pile(dest);
            assert(b1.pile(dest) == d);
            if let Target::Pile(j) = dest {
                assert(self@.tableau =~= b1.tableau.update(j as int, d + r));
            }
            assert(self@ =~= b1.with_pile(dest, d + r));
            lemma_with_pile_ms(b0, source, a);
            lemma_with_pile_ms(b1, dest, d + r);
            assert(s =~= a + r);
            lemma_cards_ms_concat(a, r);
            lemma_cards_ms_concat(d, r);
            let m0 = b0.deck_ms();
            let m1 = b1.deck_ms();
            let m2 = self@.deck_ms();
            assert forall|v: CardId| #[trigger] m2.count(v) == m0.count(v) by {
                assert(m1.add(cards_ms(s)).count(v) == m0.add(cards_ms(a)).count(v));
                assert(m2.add(cards_ms(d)).count(v) == m1.add(cards_ms(d + r)).count(v));
            }
            assert(m2 =~= m0);
        }
    }
}


impl Board {
    /// Moves the face-up top card of `target` onto the first foundation, in order, that
    /// accepts it, and says whether it did.
    pub fn maybe_move_to_a_foundation(&mut self, target: Target) -> (r: bool)
        requires
            old(self).wf(),
            old(self)@.valid_target(target),
        ensures
            final(self).wf(),
            r == old(self)@.can_build(target),
            !r ==> final(self)@ == old(self)@,
            final(self)@ == if r {
                old(self)@.after_build(target)
            } else {
                old(self)@
            },
    {
        let pile = self.pile_ref(target);
        if pile.len() == 0 {
            return false;
        }
        let card = pile[pile.len() - 1];
        if !card.is_visible() {
            return false;
        }
        let ghost b0 = self@;
        // The first foundation that takes the card gets it.
        let mut f: usize = 0;
        while f < self.foundations.len()
            invariant
                self@ == b0,
                b0.wf(),
                b0.valid_target(target),
                b0.pile(target).len() > 0,
                card == b0.pile(target).last(),
                f <= NUM_FOUNDATIONS,
                first_accepting(b0.foundations, card, 0) == first_accepting(
                    b0.foundations,
                    card,
                    f as int,
                ),
            ensures
                f < NUM_FOUNDATIONS ==> first_accepting(b0.foundations, card, 0) == f,
                f == NUM_FOUNDATIONS ==> first_accepting(b0.foundations, card, 0)
                    == NUM_FOUNDATIONS,
            decreases NUM_FOUNDATIONS - f,
        {
            let foundation = &self.foundations[f];
            let takes = if foundation.len() == 0 {
                card.rank.0 == ACE
            } else {
                let last = foundation[foundation.len() - 1];
                last.suit == card.suit && card.rank.0 as u16 == last.rank.0 as u16 + 1
            };
            assert(foundation@ == b0.foundations[f as int]);
            assert(takes == accepts(b0.foundations[f as int], card));
            if takes {
                break;
            }
            f = f + 1;
        }
        if f == self.foundations.len() {
            return false;
        }
        self.foundations[f].push(card);
        match target {
            Target::Stock => {
                self.stock.pop();
            },
            Target::Pile(i) => {
                self.tableau[i].pop();
            },
        }
        proof {
            let p = b0.pile(target);
            let fi = f as int;
            let w = b0.with_pile(target, p.drop_last());
            let fs = b0.foundations.update(fi, b0.foundations[fi].push(card));
            assert(self@.foundations =~= fs);
            if let Target::Pile(i) = target {
                assert(self@.tableau =~= w.tableau);
            }
            assert(self@ =~= b0.after_build(target));
            // The card left its pile and joined a foundation.
            lemma_with_pile_ms(b0, target, p.drop_last());
            assert(p.drop_last().push(card) =~= p);
            lemma_cards_ms_push(p.drop_last(), card);
            lemma_piles_ms_update(b0.foundations, fi, b0.foundations[fi].push(card));
            lemma_cards_ms_push(b0.foundations[fi], card);
            let m0 = b0.deck_ms();
            let m1 = w.deck_ms();
            let m2 = self@.deck_ms();
            assert forall|v: CardId| #[trigger] m2.count(v) == m0.count(v) by {
                assert(m1.add(cards_ms(p)).count(v) == m0.add(cards_ms(p.drop_last())).count(v));
                assert(piles_ms(fs).add(cards_ms(b0.foundations[fi])).count(v) == piles_ms(
                    b0.foundations,
                ).add(cards_ms(b0.foundations[fi].push(card))).count(v));
            }
            assert(m2 =~= m0);
            // The foundation still ascends in one suit.
            lemma_first_accepting(b0.foundations, card, 0);
            lemma_ascending_push(b0.foundations[fi], card);
            assert forall|g: int| 0 <= g < fs.len() implies #[trigger] is_ascending(fs[g]) by {
                if g != fi {
                    assert(fs[g] == b0.foundations[g]);
                }
            }
        }
        true
    }

    /// Moves the stock's face-up top card onto the waste, and says whether it did.
    pub fn maybe_move_top_stock_card_to_waste(&mut self) -> (r: bool)
        requires
            old(self).wf(),
        ensures
            final(self).wf(),
            r == old(self)@.can_discard(),
            !r ==> final(self)@ == old(self)@,
            final(self)@ == if r {
                old(self)@.after_discard()
            } else {
                old(self)@
            },
    {
        let len = self.stock.len();
        if len == 0 {
            return false;
        }
        let top_card = self.stock[len - 1];
        if !top_card.is_visible() {
            return false;
        }
        let ghost b0 = self@;
        self.stock.pop();
        self.waste.push(top_card);
        proof {
            assert(b0.stock.drop_last().push(top_card) =~= b0.stock);
            lemma_cards_ms_push(b0.stock.drop_last(), top_card);
            lemma_cards_ms_push(b0.waste, top_card);
            assert(top_card.facing(Face::Up) == top_card);
            assert(self@ =~= b0.after_discard());
            assert(self@.deck_ms() =~= b0.deck_ms());
        }
        true
    }

    /// Turns the top card of `target` face up if it is face down, and says whether it did.
    pub fn maybe_turn_up_top_card(&mut self, target: Target) -> (r: bool)
        requires
            old(self).wf(),
            old(self)@.valid_target(target),
        ensures
            final(self).wf(),
            r == old(self)@.can_turn_up(target),
            !r ==> final(self)@ == old(self)@,
            final(self)@ == if r {
                old(self)@.after_turn_up(target)
            } else {
                old(self)@
            },
    {
        let len = self.pile_ref(target).len();
        if len == 0 {
            return false;
        }
        if self.pile_ref(target)[len - 1].is_visible() {
            return false;
        }
        let ghost b0 = self@;
        match target {
            Target::Stock => self.stock[len - 1].turn_face_up(),
            Target::Pile(i) => self.tableau[i][len - 1].turn_face_up(),
        }
        proof {
            let p = b0.pile(target);
            let q = p.update(len - 1, p.last().facing(Face::Up));
            if let Target::Pile(i) = target {
                assert(self@.tableau =~= b0.tableau.update(i as int, q));
            }
            assert(self@ =~= b0.after_turn_up(target));
            lemma_cards_ms_turn(p, len - 1, Face::Up);
            lemma_with_pile_ms(b0, target, q);
            let m0 = b0.deck_ms();
            let m1 = self@.deck_ms();
            assert forall|v: CardId| #[trigger] m1.count(v) == m0.count(v) by {
                assert(m1.add(cards_ms(p)).count(v) == m0.add(cards_ms(q)).count(v));
            }
            assert(m1 =~= m0);
        }
        true
    }
}



impl Default for Board {
    /// A freshly shuffled and dealt game.
    fn default() -> (r: Board)
        ensures
            r.wf(),
            r@.has_deal_shape(),
    {
        Board::new()
    }
}

/// On a well-formed board, which every constructor and move of `Board` keeps, the stock,
/// waste, foundations and tableau together hold each of the 52 standard cards exactly
/// once and no other card.
pub proof fn lemma_deck_integrity(b: BoardView, id: CardId)
    requires
        b.wf(),
    ensures
        b.deck_ms().count(id) == if is_standard_id(id) {
            1nat
        } else {
            0nat
        },
{
    lemma_standard_ms_count(id);
}

/// On a well-formed board every foundation rises from the Ace by one rank at a time, all
/// in the suit of its Ace.
pub proof fn lemma_foundations_ascend(b: BoardView, f: int)
    requires
        b.wf(),
        0 <= f < NUM_FOUNDATIONS,
    ensures
        forall|k: int|
            0 <= k < b.foundations[f].len() ==> #[trigger] b.foundations[f][k].rank.0 == k + 1
                && b.foundations[f][k].suit == b.foundations[f][0].suit,
{
    assert(is_ascending(b.foundations[f]));
}

/// A single face-up top card may always go onto an empty tableau pile, or onto one whose
/// top card is face down, where it lands on top.
pub proof fn lemma_transfer_onto_empty_or_face_down(b: BoardView, src: Target, dst: Target)
    requires
        b.wf(),
        b.valid_target(src),
        b.valid_target(dst),
        dst is Pile,
        b.pile(src).len() > 0,
        b.pile(src).last().is_up(),
        b.pile(dst).len() == 0 || !b.pile(dst).last().is_up(),
    ensures
        src != dst,
        b.can_transfer(src, dst, 1),
        b.after_transfer(src, dst, 1).pile(dst) == b.pile(dst).push(b.pile(src).last()),
        b.after_transfer(src, dst, 1).pile(src) == b.pile(src).drop_last(),
{
    let s = b.pile(src);
    let b1 = b.with_pile(src, s.take(s.len() - 1));
    assert(b1.pile(dst) == b.pile(dst));
    assert(s.skip(s.len() - 1) =~= seq![s.last()]);
    assert(b.pile(dst) + seq![s.last()] =~= b.pile(dst).push(s.last()));
    assert(s.take(s.len() - 1) =~= s.drop_last());
}

/// Onto a tableau pile with a face-up top card, a run may go exactly when that top card
/// is one rank above the run's bottom card.
pub proof fn lemma_transfer_rank_chain(b: BoardView, src: Target, dst: Target, n: int)
    requires
        b.wf(),
        b.valid_target(src),
        b.valid_target(dst),
        dst is Pile,
        1 <= n <= b.pile(src).len(),
        b.pile(dst).len() > 0,
        b.pile(dst).last().is_up(),
    ensures
        b.can_transfer(src, dst, n) == (b.pile(dst).last().rank.0 == b.pile(src)[b.pile(
            src,
        ).len() - n].rank.0 + 1),
{
}

/// The foundation that `first_accepting` finds does accept the card.
proof fn lemma_first_accepting(fs: Seq<Seq<Card>>, c: Card, i: int)
    requires
        0 <= i,
    ensures
        first_accepting(fs, c, i) < fs.len() ==> i <= first_accepting(fs, c, i) && accepts(
            fs[first_accepting(fs, c, i)],
            c,
        ),
    decreases fs.len() - i,
{
    if i < fs.len() && !accepts(fs[i], c) {
        lemma_first_accepting(fs, c, i + 1);
    }
}

/// A card that a foundation accepts keeps it ascending.
proof fn lemma_ascending_push(foundation: Seq<Card>, c: Card)
    requires
        is_ascending(foundation),
        accepts(foundation, c),
    ensures
        is_ascending(foundation.push(c)),
{
    let q = foundation.push(c);
    assert forall|k: int| 0 <= k < q.len() implies #[trigger] q[k].rank.0 == k + 1 && q[k].suit
        == q[0].suit by {
        if foundation.len() > 0 {
            assert(q[0] == foundation[0]);
            if k < foundation.len() {
                assert(q[k] == foundation[k]);
                assert(foundation[k].rank.0 == k + 1);
            } else {
                let t = foundation.len() - 1;
                assert(foundation[t].rank.0 == t + 1 && foundation[t].suit == foundation[0].suit);
            }
        }
    }
}

/// Piles that are all empty hold no cards.
proof fn lemma_piles_ms_empty(ps: Seq<Seq<Card>>)
    requires
        forall|i: int| 0 <= i < ps.len() ==> (#[trigger] ps[i]).len() == 0,
    ensures
        piles_ms(ps) =~= Multiset::empty(),
    decreases ps.len(),
{
    if ps.len() > 0 {
        lemma_piles_ms_empty(ps.drop_last());
        assert(ids(ps.last()) =~= Seq::empty());
    }
}

proof fn lemma_dealt_shape(pack: Seq<Card>)
    requires
        pack.len() == PACK_SIZE,
    ensures
        dealt(pack).has_deal_shape(),
{
}

} // verus!

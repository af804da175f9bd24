use solitaire_rs::{get_standard_pack, Board, Card, Face, Rank, Suit, Target};

fn standard_board() -> Board {
    Board::deal(get_standard_pack())
}

fn card(rank: u8, suit: Suit, face: Face) -> Card {
    Card { rank: Rank(rank), suit, face }
}

fn top(board: &Board, target: Target) -> Option<Card> {
    board.get(target).unwrap().last().copied()
}

fn snapshot(board: &Board) -> (Vec<Vec<Card>>, Vec<Vec<Card>>, Vec<Card>, Vec<Card>) {
    (
        board.get_tableau().clone(),
        board.get_foundations().clone(),
        board.get_stock().clone(),
        board.get_waste().clone(),
    )
}

fn all_cards(board: &Board) -> Vec<Card> {
    let mut cards = board.get_stock().clone();
    cards.extend(board.get_waste().iter().copied());
    for pile in board.get_foundations() {
        cards.extend(pile.iter().copied());
    }
    for pile in board.get_tableau() {
        cards.extend(pile.iter().copied());
    }
    cards
}

fn assert_each_standard_card_once(board: &Board) {
    let cards = all_cards(board);
    assert_eq!(cards.len(), 52);
    for suit in Suit::all() {
        for rank in Rank::all() {
            let n = cards.iter().filter(|c| c.rank == rank && c.suit == suit).count();
            assert_eq!(n, 1, "{:?} of {:?}", rank, suit);
        }
    }
}

#[test]
fn standard_pack_runs_through_suits_from_ace_to_king() {
    let pack = get_standard_pack();
    assert_eq!(pack.len(), 52);
    assert_eq!(pack[0], card(1, Suit::Heart, Face::Down));
    assert_eq!(pack[12], card(13, Suit::Heart, Face::Down));
    assert_eq!(pack[13], card(1, Suit::Diamond, Face::Down));
    assert_eq!(pack[26], card(1, Suit::Spades, Face::Down));
    assert_eq!(pack[51], card(13, Suit::Club, Face::Down));
    assert!(pack.iter().all(|c| !c.is_visible()));
}

#[test]
fn ranks_and_suits_are_listed_in_order() {
    let ranks = Rank::all();
    assert_eq!(ranks.len(), 13);
    assert_eq!(ranks[0], Rank(1));
    assert_eq!(ranks[12], Rank(13));
    assert_eq!(Rank::new(7), Rank(7));
    assert_eq!(Suit::all(), [Suit::Heart, Suit::Diamond, Suit::Spades, Suit::Club]);
}

#[test]
fn cards_turn_over() {
    let mut c = Card::new(Rank(5), Suit::Club);
    assert!(!c.is_visible());
    c.turn_face_up();
    assert!(c.is_visible());
    assert_eq!(c, card(5, Suit::Club, Face::Up));
    c.turn_face_down();
    assert_eq!(c, card(5, Suit::Club, Face::Down));
}

#[test]
fn deal_gives_the_klondike_layout() {
    let pack = get_standard_pack();
    let board = Board::deal(pack.clone());
    let tableau = board.get_tableau();
    assert_eq!(tableau.len(), 7);
    let mut next = 0;
    for (i, pile) in tableau.iter().enumerate() {
        assert_eq!(pile.len(), i + 1);
        for (j, c) in pile.iter().enumerate() {
            assert_eq!(c.rank, pack[next].rank);
            assert_eq!(c.suit, pack[next].suit);
            assert_eq!(c.is_visible(), j == i);
            next += 1;
        }
    }
    assert_eq!(next, 28);
    assert_eq!(board.get_stock().len(), 24);
    assert!(board.get_stock().iter().all(|c| !c.is_visible()));
    assert_eq!(board.get_stock()[0], pack[28]);
    assert_eq!(board.get_stock()[23], pack[51]);
    assert!(board.get_waste().is_empty());
    assert_eq!(board.get_foundations().len(), 4);
    assert!(board.get_foundations().iter().all(|f| f.is_empty()));
    assert_each_standard_card_once(&board);
}

#[test]
fn new_board_is_a_shuffled_deal() {
    let board = Board::new();
    let tableau = board.get_tableau();
    for (i, pile) in tableau.iter().enumerate() {
        assert_eq!(pile.len(), i + 1);
        assert!(pile[i].is_visible());
        assert!(pile[..i].iter().all(|c| !c.is_visible()));
    }
    assert_eq!(board.get_stock().len(), 24);
    assert_each_standard_card_once(&board);
    let default_board = Board::default();
    assert_each_standard_card_once(&default_board);
}

#[test]
fn new_board_differs_from_an_unshuffled_deal() {
    let unshuffled = snapshot(&standard_board());
    let shuffled = snapshot(&Board::new());
    assert_ne!(shuffled, unshuffled);
}

#[test]
fn targets_cycle_through_stock_and_tableau() {
    let board = standard_board();
    assert_eq!(board.get_previous_target(Target::Stock), Target::Pile(6));
    assert_eq!(board.get_next_target(Target::Stock), Target::Pile(0));
    assert_eq!(board.get_next_target(Target::Pile(6)), Target::Stock);
    assert_eq!(board.get_previous_target(Target::Pile(0)), Target::Stock);
    assert_eq!(board.get_next_target(Target::Pile(2)), Target::Pile(3));
    assert_eq!(board.get_previous_target(Target::Pile(2)), Target::Pile(1));
    let mut t = Target::Stock;
    for _ in 0..8 {
        t = board.get_next_target(t);
    }
    assert_eq!(t, Target::Stock);
}

#[test]
fn get_resolves_stock_and_tableau_only() {
    let board = standard_board();
    assert_eq!(board.get(Target::Stock).unwrap().len(), 24);
    assert_eq!(board.get(Target::Pile(3)).unwrap().len(), 4);
    assert!(board.get(Target::Pile(7)).is_none());
}

#[test]
fn nothing_transfers_onto_the_stock() {
    let mut board = standard_board();
    let before = snapshot(&board);
    assert!(!board.maybe_transfer(Target::Pile(0), Target::Stock, 1));
    assert_eq!(snapshot(&board), before);
}

// With the unshuffled pack the column tops are A♥, 3♥, 6♥, 10♥, 2♦, 8♦, 2♠ and the
// stock's top card is the King of Clubs.

#[test]
fn column_tops_of_the_unshuffled_deal() {
    let board = standard_board();
    let tops: Vec<Card> = (0..7).map(|i| top(&board, Target::Pile(i)).unwrap()).collect();
    assert_eq!(
        tops,
        vec![
            card(1, Suit::Heart, Face::Up),
            card(3, Suit::Heart, Face::Up),
            card(6, Suit::Heart, Face::Up),
            card(10, Suit::Heart, Face::Up),
            card(2, Suit::Diamond, Face::Up),
            card(8, Suit::Diamond, Face::Up),
            card(2, Suit::Spades, Face::Up),
        ]
    );
    assert_eq!(top(&board, Target::Stock).unwrap(), card(13, Suit::Club, Face::Down));
}

#[test]
fn transfer_onto_empty_or_face_down_top_succeeds() {
    let mut board = standard_board();
    // A♥ onto 2♦ empties pile 0.
    assert!(board.maybe_transfer(Target::Pile(0), Target::Pile(4), 1));
    assert!(board.get(Target::Pile(0)).unwrap().is_empty());
    // 3♥ onto the empty pile, whatever its rank.
    assert!(board.maybe_transfer(Target::Pile(1), Target::Pile(0), 1));
    assert_eq!(board.get(Target::Pile(0)).unwrap().as_slice(), &[card(3, Suit::Heart, Face::Up)]);
    // Pile 1 now shows a face-down 2♥; 6♥ goes onto it.
    assert_eq!(top(&board, Target::Pile(1)).unwrap(), card(2, Suit::Heart, Face::Down));
    assert!(board.maybe_transfer(Target::Pile(2), Target::Pile(1), 1));
    assert_eq!(board.get(Target::Pile(1)).unwrap().len(), 2);
    assert_eq!(top(&board, Target::Pile(1)).unwrap(), card(6, Suit::Heart, Face::Up));
    assert_eq!(board.get(Target::Pile(2)).unwrap().len(), 2);
    assert_each_standard_card_once(&board);
}

#[test]
fn transfer_follows_the_rank_chain() {
    let mut board = standard_board();
    // A♥ onto 3♥: 3 is not 1 + 1, refused and nothing changes.
    let before = snapshot(&board);
    assert!(!board.maybe_transfer(Target::Pile(0), Target::Pile(1), 1));
    assert_eq!(snapshot(&board), before);
    // 2♠ onto 10♥ is refused too.
    assert!(!board.maybe_transfer(Target::Pile(6), Target::Pile(3), 1));
    assert_eq!(snapshot(&board), before);
    // A♥ onto 2♦ is accepted.
    assert!(board.maybe_transfer(Target::Pile(0), Target::Pile(4), 1));
    assert_eq!(top(&board, Target::Pile(4)).unwrap(), card(1, Suit::Heart, Face::Up));
    assert_eq!(board.get(Target::Pile(4)).unwrap().len(), 6);
    assert_each_standard_card_once(&board);
}

#[test]
fn run_moves_as_one_judged_by_its_bottom_card() {
    let mut board = standard_board();
    assert!(board.maybe_transfer(Target::Pile(0), Target::Pile(4), 1));
    // Pile 4 ends with the run 2♦, A♥; its bottom card 2♦ goes onto 3♥.
    let run: Vec<Card> = board.get(Target::Pile(4)).unwrap()[4..].to_vec();
    assert_eq!(run, vec![card(2, Suit::Diamond, Face::Up), card(1, Suit::Heart, Face::Up)]);
    assert!(board.maybe_transfer(Target::Pile(4), Target::Pile(1), 2));
    let pile1 = board.get(Target::Pile(1)).unwrap();
    assert_eq!(pile1.len(), 4);
    assert_eq!(&pile1[2..], run.as_slice());
    assert_eq!(board.get(Target::Pile(4)).unwrap().len(), 4);
    assert_eq!(top(&board, Target::Pile(4)).unwrap(), card(1, Suit::Diamond, Face::Down));
    assert_each_standard_card_once(&board);
}

#[test]
fn run_longer_than_its_pile_or_empty_is_refused() {
    let mut board = standard_board();
    let before = snapshot(&board);
    assert!(!board.maybe_transfer(Target::Pile(0), Target::Pile(4), 2));
    assert!(!board.maybe_transfer(Target::Pile(0), Target::Pile(4), 0));
    assert_eq!(snapshot(&board), before);
}

#[test]
fn self_transfer_leaves_the_board_as_it_was() {
    let mut board = standard_board();
    let before = snapshot(&board);
    assert!(!board.maybe_transfer(Target::Pile(3), Target::Pile(3), 1));
    assert_eq!(snapshot(&board), before);
}

#[test]
fn discard_needs_a_face_up_stock_top() {
    let mut board = standard_board();
    let before = snapshot(&board);
    assert!(!board.maybe_move_top_stock_card_to_waste());
    assert_eq!(snapshot(&board), before);
    assert!(board.maybe_turn_up_top_card(Target::Stock));
    assert!(!board.maybe_turn_up_top_card(Target::Stock));
    assert!(board.maybe_move_top_stock_card_to_waste());
    assert_eq!(board.get_stock().len(), 23);
    assert_eq!(board.get_waste().as_slice(), &[card(13, Suit::Club, Face::Up)]);
}

#[test]
fn build_moves_aces_then_the_next_rank_of_the_suit() {
    let mut pack = get_standard_pack();
    pack.swap(1, 2); // pile 1 top: 2 of Hearts
    pack.swap(5, 13); // pile 2 top: Ace of Diamonds
    let mut board = Board::deal(pack);
    // The face-down stock top cannot be built.
    assert!(!board.maybe_move_to_a_foundation(Target::Stock));
    // 2 of Hearts has no foundation yet.
    let before = snapshot(&board);
    assert!(!board.maybe_move_to_a_foundation(Target::Pile(1)));
    assert_eq!(snapshot(&board), before);
    assert!(board.maybe_move_to_a_foundation(Target::Pile(0)));
    assert!(board.maybe_move_to_a_foundation(Target::Pile(2)));
    assert!(board.maybe_move_to_a_foundation(Target::Pile(1)));
    let f = board.get_foundations();
    assert_eq!(f[0].as_slice(), &[card(1, Suit::Heart, Face::Up), card(2, Suit::Heart, Face::Up)]);
    assert_eq!(f[1].as_slice(), &[card(1, Suit::Diamond, Face::Up)]);
    assert!(f[2].is_empty() && f[3].is_empty());
    assert!(board.get(Target::Pile(0)).unwrap().is_empty());
    // An empty pile has nothing to build.
    assert!(!board.maybe_move_to_a_foundation(Target::Pile(0)));
    assert_each_standard_card_once(&board);
}

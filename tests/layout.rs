use solitaire_rs::layout::{
    fanned_pile_height, get_card_appearance, get_range_appearance, CARD_HEIGHT,
};
use solitaire_rs::{
    get_standard_pack, Action, Board, CardAppearance, EmptySlotWidget, Loc, RangeAppearance,
    Size, StateMachine, Target,
};

#[test]
fn locations_and_sizes_hold_their_fields() {
    let loc = Loc::new(3, 4);
    assert_eq!((loc.x, loc.y), (3, 4));
    let size = Size::new(5, 7);
    assert_eq!((size.width, size.height), (5, 7));
}

#[test]
fn empty_slot_starts_blank_and_takes_marks() {
    let slot = EmptySlotWidget::new(Some(CardAppearance::Focused));
    assert_eq!(slot.appearance, Some(CardAppearance::Focused));
    assert_eq!(slot.content, [' ', ' ']);
    let marked = slot.content(['a', 'b']);
    assert_eq!(marked.content, ['a', 'b']);
    assert_eq!(marked.appearance, Some(CardAppearance::Focused));
}

#[test]
fn fanned_pile_height_counts_hints_and_one_full_card() {
    assert_eq!(fanned_pile_height(0), CARD_HEIGHT);
    assert_eq!(fanned_pile_height(1), 4);
    assert_eq!(fanned_pile_height(7), 16);
}

#[test]
fn range_covers_the_top_cards() {
    let range = RangeAppearance { card_appearance: CardAppearance::Picked, size: 2 };
    assert!(!range.covers(2, 5));
    assert!(range.covers(3, 5));
    assert!(range.covers(4, 5));
    let wide = RangeAppearance { card_appearance: CardAppearance::Focused, size: 9 };
    assert!(wide.covers(0, 3));
}

#[test]
fn appearances_follow_the_state_machine() {
    let mut board = Board::deal(get_standard_pack());
    let mut sm = StateMachine::default();
    assert_eq!(get_card_appearance(&sm, Target::Stock), Some(CardAppearance::Focused));
    assert_eq!(get_card_appearance(&sm, Target::Pile(0)), None);
    sm.handle(Action::TargetNext, &mut board);
    sm.handle(Action::Act, &mut board);
    sm.handle(Action::TargetNext, &mut board);
    assert_eq!(
        get_range_appearance(&sm, 0),
        Some(RangeAppearance { card_appearance: CardAppearance::Picked, size: 1 })
    );
    assert_eq!(
        get_range_appearance(&sm, 1),
        Some(RangeAppearance { card_appearance: CardAppearance::Focused, size: 1 })
    );
    assert_eq!(get_range_appearance(&sm, 2), None);
}

use vstd::prelude::*;

use crate::board::Target;
use crate::game::{status_of, StateMachine, TargetStatus};

verus! {

/// The X-Y location of something on the screen.
#[derive(Debug, Clone, Copy, PartialEq, Eq, Structural)]
pub struct Loc {
    pub x: u16,
    pub y: u16,
}

impl Loc {
    pub fn new(x: u16, y: u16) -> (r: Loc)
        ensures
            r == (Loc { x, y }),
    {
        Loc { x, y }
    }
}

/// The size of something on the screen.
#[derive(Debug, Clone, Copy, PartialEq, Eq, Structural)]
pub struct Size {
    pub width: u16,
    pub height: u16,
}

impl Size {
    pub fn new(width: u16, height: u16) -> (r: Size)
        ensures
            r == (Size { width, height }),
    {
        Size { width, height }
    }
}

/// Something drawn within a fixed size.
pub trait HasSize {
    fn get_size(&self) -> &Size;

    fn get_width(&self) -> u16 {
        self.get_size().width
    }

    fn get_height(&self) -> u16 {
        self.get_size().height
    }
}

/// How a card is highlighted: in focus, or picked up to be moved.
#[derive(Debug, Clone, Copy, PartialEq, Eq, Structural)]
pub enum CardAppearance {
    Focused,
    Picked,
}

/// A highlight that covers the top `size` cards of a pile.
#[derive(Debug, Clone, Copy, PartialEq, Eq, Structural)]
pub struct RangeAppearance {
    pub card_appearance: CardAppearance,
    pub size: usize,
}

impl RangeAppearance {
    /// Whether the card at `index` of a pile of `pile_len` cards is among the top `size`.
    pub fn covers(&self, index: usize, pile_len: usize) -> (r: bool)
        ensures
            r == (index + self.size >= pile_len),
    {
        index as u128 + self.size as u128 >= pile_len as u128
    }
}

pub open spec fn appearance_of(status: TargetStatus) -> CardAppearance {
    match status {
        TargetStatus::Current { .. } => CardAppearance::Focused,
        TargetStatus::Picked { .. } => CardAppearance::Picked,
    }
}

pub open spec fn count_of(status: TargetStatus) -> usize {
    match status {
        TargetStatus::Current { num_cards } => num_cards,
        TargetStatus::Picked { num_cards } => num_cards,
    }
}

/// How `target` is highlighted in the state machine's current state, if at all.
pub fn get_card_appearance(state_machine: &StateMachine, target: Target) -> (r: Option<
    CardAppearance,
>)
    ensures
        r == match status_of(state_machine@, target) {
            Some(status) => Some(appearance_of(status)),
            None => None::<CardAppearance>,
        },
{
    match state_machine.get_status_of(target) {
        Some(TargetStatus::Current { .. }) => Some(CardAppearance::Focused),
        Some(TargetStatus::Picked { .. }) => Some(CardAppearance::Picked),
        None => None,
    }
}

/// How the top cards of tableau pile `index` are highlighted, if at all.
pub fn get_range_appearance(state_machine: &StateMachine, index: usize) -> (r: Option<
    RangeAppearance,
>)
    ensures
        r == match status_of(state_machine@, Target::Pile(index)) {
            Some(status) => Some(
                RangeAppearance { card_appearance: appearance_of(status), size: count_of(status) },
            ),
            None => None::<RangeAppearance>,
        },
{
    match state_machine.get_status_of(Target::Pile(index)) {
        Some(TargetStatus::Current { num_cards }) => Some(
            RangeAppearance { card_appearance: CardAppearance::Focused, size: num_cards },
        ),
        Some(TargetStatus::Picked { num_cards }) => Some(
            RangeAppearance { card_appearance: CardAppearance::Picked, size: num_cards },
        ),
        None => None,
    }
}

/// A card drawn in full is this wide and this high.
pub const CARD_WIDTH: u16 = 5;

pub const CARD_HEIGHT: u16 = 4;

/// Of a card covered by the next one in a fanned pile, this many rows show.
pub const CARD_HINT_HEIGHT: u16 = 2;

/// The height of a pile fanned out as a column: every card but the last shows its top
/// rows, the last shows in full; an empty pile shows as an empty slot of one card.
pub fn fanned_pile_height(num_cards: usize) -> (r: u16)
    requires
        num_cards <= 32000,
    ensures
        num_cards == 0 ==> r == CARD_HEIGHT,
        num_cards > 0 ==> r == CARD_HEIGHT + CARD_HINT_HEIGHT * (num_cards - 1),
{
    if num_cards == 0 {
        CARD_HEIGHT
    } else {
        CARD_HEIGHT + CARD_HINT_HEIGHT * (num_cards - 1) as u16
    }
}

/// The outline of a pile with no card, optionally with two marks inside.
#[derive(Debug, Clone, Copy, PartialEq, Eq)]
pub struct EmptySlotWidget {
    pub appearance: Option<CardAppearance>,
    pub content: [char; 2],
}

impl EmptySlotWidget {
    /// An empty slot with the given highlight and no marks.
    pub fn new(appearance: Option<CardAppearance>) -> (r: EmptySlotWidget)
        ensures
            r.appearance == appearance,
            r.content@ == seq![' ', ' '],
    {
        EmptySlotWidget { appearance, content: [' ';2] }
    }

    /// The same slot, with `content` as its marks.
    pub fn content(self, content: [char; 2]) -> (r: EmptySlotWidget)
        ensures
            r.appearance == self.appearance,
            r.content == content,
    {
        EmptySlotWidget { appearance: self.appearance, content }
    }
}

} // verus!

use vstd::prelude::*;

use crate::board::{Board, BoardView, Target};

verus! {

/// What the player asks for.
#[derive(Debug, Clone, Copy, PartialEq, Eq, Structural)]
pub enum Action {
    TargetPrevious,
    TargetNext,
    IncreaseRange,
    DecreaseRange,
    Build,
    Act,
    Discard,
}

/// How a target stands in the current state: the focused one, or the one picked up,
/// with the number of cards concerned.
#[derive(Debug, Clone, Copy, PartialEq, Eq, Structural)]
pub enum TargetStatus {
    Current { num_cards: usize },
    Picked { num_cards: usize },
}

/// Choosing what to act on: a target and how many of its top cards.
#[derive(Debug, Clone, Copy, PartialEq, Eq, Structural)]
pub struct SelectingState {
    pub current_target: Target,
    pub num_selected_cards: usize,
}

/// Carrying picked cards: where they come from, how many, and the target in focus.
#[derive(Debug, Clone, Copy, PartialEq, Eq, Structural)]
pub struct TransferringState {
    pub current_target: Target,
    pub num_picked_cards: usize,
    pub picked_target: Target,
}

/// The two states of the interaction.
#[derive(Debug, Clone, Copy, PartialEq, Eq, Structural)]
pub enum GameState {
    Selecting(SelectingState),
    Transferring(TransferringState),
}

impl GameState {
    /// Targets are the stock or one of the seven tableau piles, and counts are positive.
    pub open spec fn wf(self) -> bool {
        match self {
            GameState::Selecting(s) => s.current_target.is_valid() && s.num_selected_cards >= 1,
            GameState::Transferring(t) => t.current_target.is_valid()
                && t.picked_target.is_valid() && t.num_picked_cards >= 1,
        }
    }
}

/// Selecting `t`, with one card.
pub open spec fn selecting(t: Target) -> GameState {
    GameState::Selecting(SelectingState { current_target: t, num_selected_cards: 1 })
}

/// Whether the selection on a tableau pile may take one more card: the pile has a card
/// above the selected run, and that card is face up.
pub open spec fn can_increase(s: SelectingState, b: BoardView) -> bool {
    let p = b.pile(s.current_target);
    &&& s.current_target is Pile
    &&& p.len() >= s.num_selected_cards + 1
    &&& p[p.len() - (s.num_selected_cards + 1)].is_up()
}

/// Whether the selection on a tableau pile may give up one card.
pub open spec fn can_decrease(s: SelectingState) -> bool {
    s.current_target is Pile && s.num_selected_cards > 1
}

/// What an action does from the selecting state: whether anything changed, the next
/// state, and the board after it.
pub open spec fn selecting_step(s: SelectingState, action: Action, b: BoardView) -> (
    bool,
    GameState,
    BoardView,
) {
    let t = s.current_target;
    let same = GameState::Selecting(s);
    match action {
        Action::TargetPrevious => (true, selecting(b.previous_target(t)), b),
        Action::TargetNext => (true, selecting(b.next_target(t)), b),
        Action::IncreaseRange => if can_increase(s, b) {
            (
                true,
                GameState::Selecting(
                    SelectingState { current_target: t, num_selected_cards: (s.num_selected_cards + 1) as usize },
                ),
                b,
            )
        } else {
            (false, same, b)
        },
        Action::DecreaseRange => if can_decrease(s) {
            (
                true,
                GameState::Selecting(
                    SelectingState { current_target: t, num_selected_cards: (s.num_selected_cards - 1) as usize },
                ),
                b,
            )
        } else {
            (false, same, b)
        },
        Action::Act => if b.can_turn_up(t) {
            (true, same, b.after_turn_up(t))
        } else if b.pile(t).len() > 0 {
            (
                true,
                GameState::Transferring(
                    TransferringState {
                        current_target: t,
                        num_picked_cards: s.num_selected_cards,
                        picked_target: t,
                    },
                ),
                b,
            )
        } else {
            (false, same, b)
        },
        Action::Build => if b.can_build(t) {
            (true, same, b.after_build(t))
        } else {
            (false, same, b)
        },
        Action::Discard => if b.can_discard() {
            (true, same, b.after_discard())
        } else {
            (false, same, b)
        },
    }
}

/// What an action does from the transferring state.
pub open spec fn transferring_step(s: TransferringState, action: Action, b: BoardView) -> (
    bool,
    GameState,
    BoardView,
) {
    let n = s.num_picked_cards as int;
    match action {
        Action::TargetPrevious => (
            true,
            GameState::Transferring(
                TransferringState {
                    current_target: b.previous_target(s.current_target),
                    num_picked_cards: s.num_picked_cards,
                    picked_target: s.picked_target,
                },
            ),
            b,
        ),
        Action::TargetNext => (
            true,
            GameState::Transferring(
                TransferringState {
                    current_target: b.next_target(s.current_target),
                    num_picked_cards: s.num_picked_cards,
                    picked_target: s.picked_target,
                },
            ),
            b,
        ),
        Action::Act => (
            true,
            selecting(s.current_target),
            if b.can_transfer(s.picked_target, s.current_target, n) {
                b.after_transfer(s.picked_target, s.current_target, n)
            } else {
                b
            },
        ),
        _ => (false, GameState::Transferring(s), b),
    }
}

/// What an action does: whether anything changed, the next state, and the board after it.
pub open spec fn step(state: GameState, action: Action, b: BoardView) -> (bool, GameState, BoardView) {
    match state {
        GameState::Selecting(s) => selecting_step(s, action, b),
        GameState::Transferring(s) => transferring_step(s, action, b),
    }
}

/// How `t` stands in `state`. While transferring, the picked target shows as picked even
/// when it is also the current one.
pub open spec fn status_of(state: GameState, t: Target) -> Option<TargetStatus> {
    match state {
        GameState::Selecting(s) => if t == s.current_target {
            Some(TargetStatus::Current { num_cards: s.num_selected_cards })
        } else {
            None
        },
        GameState::Transferring(s) => if t == s.picked_target {
            Some(TargetStatus::Picked { num_cards: s.num_picked_cards })
        } else if t == s.current_target {
            Some(TargetStatus::Current { num_cards: 1 })
        } else {
            None
        },
    }
}

/// The state after a step: the one a handler returned, or the handler's own state.
pub open spec fn next_state(own: GameState, returned: Option<GameState>) -> GameState {
    match returned {
        Some(s) => s,
        None => own,
    }
}


/// Picking up the face-up top of the focused pile and acting again without moving drops
/// the cards back where they were: the board is as before and the pile is selected anew.
pub proof fn lemma_pick_and_drop_in_place(s: SelectingState, b: BoardView)
    requires
        GameState::Selecting(s).wf(),
        b.wf(),
        b.pile(s.current_target).len() > 0,
        b.pile(s.current_target).last().is_up(),
    ensures
        ({
            let (picked, carrying, b1) = step(GameState::Selecting(s), Action::Act, b);
            let (dropped, after, b2) = step(carrying, Action::Act, b1);
            &&& picked && dropped
            &&& carrying == GameState::Transferring(
                TransferringState {
                    current_target: s.current_target,
                    num_picked_cards: s.num_selected_cards,
                    picked_target: s.current_target,
                },
            )
            &&& b1 == b
            &&& after == selecting(s.current_target)
            &&& b2 == b
        }),
{
}

impl SelectingState {
    /// Selecting one card of `current_target`.
    pub fn new(current_target: Target) -> (r: SelectingState)
        ensures
            GameState::Selecting(r) == selecting(current_target),
    {
        SelectingState { current_target, num_selected_cards: 1 }
    }

    /// Turns a face-down top card up, or picks the selected run when the top card is face up.
    fn maybe_reveal_or_pick(&mut self, board: &mut Board) -> (r: (bool, Option<GameState>))
        requires
            GameState::Selecting(*old(self)).wf(),
            old(board).wf(),
        ensures
            *final(self) == *old(self),
            final(board).wf(),
            (r.0, next_state(GameState::Selecting(*final(self)), r.1), final(board)@)
                == selecting_step(*old(self), Action::Act, old(board)@),
            r.1 is Some <==> (!old(board)@.can_turn_up(old(self).current_target) && old(
                board,
            )@.pile(old(self).current_target).len() > 0),
    {
        if board.maybe_turn_up_top_card(self.current_target) {
            return (true, None);
        }
        let is_empty = match board.get(self.current_target) {
            Some(pile) => pile.len() == 0,
            None => true,
        };
        if is_empty {
            return (false, None);
        }
        let new_state = TransferringState::new(self.current_target, self.num_selected_cards);
        (true, Some(GameState::Transferring(new_state)))
    }

    /// Takes one more card into the selection on a tableau pile, if the card above the
    /// selected run is there and face up.
    pub fn maybe_increment_card_range(&mut self, board: &Board) -> (r: bool)
        requires
            GameState::Selecting(*old(self)).wf(),
            board.wf(),
        ensures
            r == can_increase(*old(self), board@),
            final(self).current_target == old(self).current_target,
            final(self).num_selected_cards == if r {
                old(self).num_selected_cards + 1
            } else {
                old(self).num_selected_cards as int
            },
    {
        match self.current_target {
            Target::Pile(index) => {
                let pile = match board.get(Target::Pile(index)) {
                    Some(pile) => pile,
                    None => return false,
                };
                if pile.len() <= self.num_selected_cards {
                    return false;
                }
                let card_above = pile[pile.len() - (self.num_selected_cards + 1)];
                if !card_above.is_visible() {
                    return false;
                }
                self.num_selected_cards = self.num_selected_cards + 1;
                true
            },
            Target::Stock => false,
        }
    }

    /// Gives up one card of a selection of several on a tableau pile.
    pub fn maybe_decrement_card_range(&mut self) -> (r: bool)
        ensures
            r == can_decrease(*old(self)),
            final(self).current_target == old(self).current_target,
            final(self).num_selected_cards == if r {
                old(self).num_selected_cards - 1
            } else {
                old(self).num_selected_cards as int
            },
    {
        match self.current_target {
            Target::Pile(_) => {
                if self.num_selected_cards > 1 {
                    self.num_selected_cards = self.num_selected_cards - 1;
                    true
                } else {
                    false
                }
            },
            Target::Stock => false,
        }
    }

    pub fn get_status_of(&self, target: Target) -> (r: Option<TargetStatus>)
        ensures
            r == status_of(GameState::Selecting(*self), target),
    {
        if target == self.current_target {
            Some(TargetStatus::Current { num_cards: self.num_selected_cards })
        } else {
            None
        }
    }

    /// Handles `action`: whether anything changed, and the state to move to, if another.
    pub fn handle(&mut self, action: Action, board: &mut Board) -> (r: (bool, Option<GameState>))
        requires
            GameState::Selecting(*old(self)).wf(),
            old(board).wf(),
        ensures
            next_state(GameState::Selecting(*final(self)), r.1).wf(),
            final(board).wf(),
            (r.0, next_state(GameState::Selecting(*final(self)), r.1), final(board)@)
                == selecting_step(*old(self), action, old(board)@),
            r.1 is Some ==> *final(self) == *old(self),
            r.1 is Some <==> (action is TargetPrevious || action is TargetNext || (action is Act
                && !old(board)@.can_turn_up(old(self).current_target) && old(board)@.pile(
                old(self).current_target,
            ).len() > 0)),
    {
        match action {
            Action::TargetPrevious => {
                let target = board.get_previous_target(self.current_target);
                (true, Some(GameState::Selecting(SelectingState::new(target))))
            },
            Action::TargetNext => {
                let target = board.get_next_target(self.current_target);
                (true, Some(GameState::Selecting(SelectingState::new(target))))
            },
            Action::IncreaseRange => (self.maybe_increment_card_range(board), None),
            Action::DecreaseRange => (self.maybe_decrement_card_range(), None),
            Action::Act => self.maybe_reveal_or_pick(board),
            Action::Build => (board.maybe_move_to_a_foundation(self.current_target), None),
            Action::Discard => (board.maybe_move_top_stock_card_to_waste(), None),
        }
    }
}

impl TransferringState {
    /// Carrying `num_picked_cards` cards picked from `current_target`.
    pub fn new(current_target: Target, num_picked_cards: usize) -> (r: TransferringState)
        ensures
            r == (TransferringState {
                current_target,
                num_picked_cards,
                picked_target: current_target,
            }),
    {
        TransferringState { current_target, num_picked_cards, picked_target: current_target }
    }

    pub fn get_status_of(&self, target: Target) -> (r: Option<TargetStatus>)
        ensures
            r == status_of(GameState::Transferring(*self), target),
    {
        if target == self.picked_target {
            return Some(TargetStatus::Picked { num_cards: self.num_picked_cards });
        }
        if target == self.current_target {
            return Some(TargetStatus::Current { num_cards: 1 });
        }
        None
    }

    /// Handles `action`: whether anything changed, and the state to move to, if another.
    pub fn handle(&mut self, action: Action, board: &mut Board) -> (r: (bool, Option<GameState>))
        requires
            GameState::Transferring(*old(self)).wf(),
            old(board).wf(),
        ensures
            next_state(GameState::Transferring(*final(self)), r.1).wf(),
            final(board).wf(),
            (r.0, next_state(GameState::Transferring(*final(self)), r.1), final(board)@)
                == transferring_step(*old(self), action, old(board)@),
            r.1 is Some ==> *final(self) == *old(self),
            r.1 is Some <==> action is Act,
    {
        match action {
            Action::TargetPrevious => {
                self.current_target = board.get_previous_target(self.current_target);
                (true, None)
            },
            Action::TargetNext => {
                self.current_target = board.get_next_target(self.current_target);
                (true, None)
            },
            Action::Act => {
                // An illegal transfer is dropped; either way the selection starts afresh.
                board.maybe_transfer(self.picked_target, self.current_target, self.num_picked_cards);
                let new_state = SelectingState::new(self.current_target);
                (true, Some(GameState::Selecting(new_state)))
            },
            _ => (false, None),
        }
    }
}

/// The interaction: one state at a time, advanced one action at a time.
pub struct StateMachine {
    current_state: GameState,
}

impl View for StateMachine {
    type V = GameState;

    closed spec fn view(&self) -> GameState {
        self.current_state
    }
}

impl Default for StateMachine {
    /// A game starts by selecting the stock.
    fn default() -> (r: StateMachine)
        ensures
            r@ == selecting(Target::Stock),
    {
        StateMachine { current_state: GameState::Selecting(SelectingState::new(Target::Stock)) }
    }
}

impl StateMachine {
    pub fn get_status_of(&self, target: Target) -> (r: Option<TargetStatus>)
        ensures
            r == status_of(self@, target),
    {
        match &self.current_state {
            GameState::Selecting(s) => s.get_status_of(target),
            GameState::Transferring(s) => s.get_status_of(target),
        }
    }

    /// Applies `action` to the state and the board, and says whether anything changed.
    pub fn handle(&mut self, action: Action, board: &mut Board) -> (r: bool)
        requires
            old(self)@.wf(),
            old(board).wf(),
        ensures
            final(self)@.wf(),
            final(board).wf(),
            (r, final(self)@, final(board)@) == step(old(self)@, action, old(board)@),
    {
        let (changed, new_state) = match &mut self.current_state {
            GameState::Selecting(s) => s.handle(action, board),
            GameState::Transferring(s) => s.handle(action, board),
        };
        if let Some(new_state) = new_state {
            self.move_to(new_state);
        }
        changed
    }

    pub fn move_to(&mut self, new_state: GameState)
        ensures
            final(self)@ == new_state,
    {
        self.current_state = new_state;
    }
}

} // verus!

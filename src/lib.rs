//! A Klondike solitaire engine: the cards, the board with its legal moves, and the
//! interaction state machine that turns player intents into moves.

pub mod board;
pub mod card;
pub mod game;
pub mod layout;

pub use board::{Board, BoardView, Pile, Target};
pub use card::{get_standard_pack, Card, CardId, Face, Rank, Suit};
pub use game::{Action, GameState, SelectingState, StateMachine, TargetStatus, TransferringState};
pub use layout::{CardAppearance, EmptySlotWidget, HasSize, Loc, RangeAppearance, Size};

//! Tic-tac-toe on a square board of any side, against a machine that
//! searches the whole game tree.
//!
//! `board` holds the mathematical model of a board and the rule that decides
//! a winner; `grid` and `field` hold two boards that are stored differently
//! and share that model. `game` says what a position is worth and which move
//! the machine makes; `minimax` finds that move by a search with alpha-beta
//! pruning. `prompt` reads the player's lines, `picture` draws the board, and
//! `fsm` takes a game from one state to the next.
pub mod board;
pub mod field;
pub mod fsm;
pub mod game;
pub mod grid;
pub mod minimax;
pub mod picture;
pub mod prompt;

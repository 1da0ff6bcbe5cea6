//! # Snake
//!
//! The rules of a Snake game: a snake that moves on a grid, grows when it eats,
//! and dies when it leaves the board or bites itself. The [`Game`] type drives
//! all of the game logic; the host is responsible only for rendering and for
//! forwarding user-input events.

pub mod game;
pub mod snake;

pub use game::{Game, GameModel, GameState, KeyCommand};
pub use snake::{Direction, Point, Snake, SnakeView};

#![allow(unused_imports)]

pub mod blocks;
pub mod cards;
pub mod cylinders;
pub mod deck;
pub mod game;
pub mod map;
pub mod market;
pub mod player;
pub mod primitives;
pub mod rupees;
pub mod score;
pub mod util;

pub use crate::map::Region;
pub use crate::player::Color as PlayerColor;
pub use crate::primitives::{Coalition, Suit};

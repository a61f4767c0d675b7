//! Verified game and evolution logic: blackjack hands and rounds, ranking of
//! a population by fitness, the breeding plans of the two evolution loops,
//! the bookkeeping of a Flappy Bird generation, menu input and network shapes.

pub mod hand;
pub mod round;
pub mod ranking;
pub mod breeding;
pub mod generation;
pub mod menu;
pub mod network;

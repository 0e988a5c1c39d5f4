//! Observe-and-react core of a browser benchmark bot: screen geometry, the
//! cell grid, the pixel scanner, the stop protocol, the key sequencer, and
//! the small decisions of each benchmark (chimp rounds, verbal memory, the
//! menu).

pub mod chimp;
pub mod control;
pub mod geometry;
pub mod grid;
pub mod keys;
pub mod menu;
pub mod scanner;
pub mod text;
pub mod verbal;

//! Rules engine of a falling-block puzzle game: the playfield grid, the
//! seven tetromino shapes, collision detection, rotation with kick fallback,
//! line clearing and scoring, a single-use hold slot, a lookahead queue fed
//! by a fair bag randomizer, and the orchestrator that drives the
//! spawn / fall / lock / clear / respawn cycle.

pub mod block;
pub mod block_control;
pub mod field;
pub mod game;
pub mod game_control;
pub mod position;
pub mod rng;

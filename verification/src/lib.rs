//! Core of an arcade math-typing game: enemy craft descend a normalized
//! [0,1] x [0,1] playfield, each labeled with an arithmetic expression, and the
//! player destroys them by typing the answer.  This crate holds the verified
//! game logic: the level catalog and its persistent text encoding, the
//! difficulty-scaled wave generator, target election and cycling, the alien and
//! turret lifecycles, and the top-level mode machine that sequences menus,
//! play, transitions and end-of-game.  Rendering, audio and file access are
//! left to the embedding binary, which feeds the session plain events and
//! carries out the effects it returns.

pub mod alien;
pub mod catalog_parse;
pub mod catalog_text;
pub mod explosion;
pub mod json;
pub mod json_proof;
pub mod level;
pub mod message;
pub mod numbers;
pub mod persistence;
pub mod rng;
pub mod session;
pub mod targeting;
pub mod turret;
pub mod wavegen;

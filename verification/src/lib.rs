//! Game logic of a falling-pairs puzzle in the Puyo Puyo style: the puyo
//! types, the seeded pair generator, the playing field with movement,
//! rotation, gravity, chain detection and scoring, the screens and menus,
//! the settings screen and the localized texts. `regions` shows that the
//! groups that pop are exactly the connected regions of four or more puyos of
//! one colour; `conservation` shows that gravity neither makes nor loses
//! puyos.

pub mod puyo;
pub mod localization;
pub mod rng;
pub mod settings;
pub mod types;
pub mod board;
pub mod gravity;
pub mod conservation;
pub mod chain;
pub mod regions;
pub mod scoring;
pub mod game;
pub mod controller;
pub mod audio;
pub mod render;

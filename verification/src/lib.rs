pub mod array2d;
pub mod config;
pub mod game;
pub mod piece;
pub mod replay;
pub mod stack;
pub mod state;
pub mod plate;
pub mod channels;
pub mod curve25519;
pub mod client;
pub mod networking;
pub mod savegames;
pub mod plateoptimizer;
pub mod recording;
pub mod mesh;
pub mod highscores;
mod entropy;

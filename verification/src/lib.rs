//! A player for local music: the library and its scanner, playlists, lyrics and covers, and the
//! engine that decides what is played and how it reaches the output.

pub mod base64;
pub mod bytes;
pub mod covers;
pub mod db;
pub mod double;
pub mod engine;
pub mod error;
pub mod fonts;
pub mod lyrics;
pub mod metadata;
pub mod models;
pub mod playlists;
pub mod requests;
pub mod scanner;
pub mod settings;
pub mod smtc;
pub mod text;
pub mod watcher;

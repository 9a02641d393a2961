pub mod text;
pub mod subtitle;
pub mod config;
pub mod json;
pub mod media_server;
pub mod plex;
pub mod mediabrowser;
pub mod audiobookshelf;
pub mod session;
pub mod playback_sessions;
pub mod history;
pub mod mining;
pub mod review;
pub mod tadoku;
pub mod anki;
pub mod anki_poller;
pub mod enrichment;
pub mod media;
pub mod api;
pub mod plex_websocket;

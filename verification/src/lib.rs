//! A threaded HLS (`.m3u8`) downloader's logic: HTTP/1.1 messages read and
//! written, playlists, download plans and the bookkeeping of its services.
pub mod calls;
pub mod config;
pub mod download;
pub mod fetch;
pub mod http;
pub mod m3u8;
pub mod num;
pub mod server;
pub mod service;
pub mod text;
pub mod threads;
pub mod web;

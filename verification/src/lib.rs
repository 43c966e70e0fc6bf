//! Core logic of the catacomb offline video archiver: URL classification,
//! yt-dlp failure triage and command lines, library naming and health,
//! feeds, calendars and the text formats of the web server.

pub mod autotag;
pub mod cli;
pub mod civil;
pub mod config;
pub mod crash;
pub mod database;
pub mod dedup;
pub mod desktop;
pub mod disk_space;
pub mod download_options;
pub mod downloader;
pub mod error_class;
pub mod feed;
pub mod fingerprint;
pub mod info;
pub mod jobs;
pub mod library;
pub mod maintenance;
pub mod music;
pub mod num;
pub mod order;
pub mod paths;
pub mod peertube;
pub mod platform;
pub mod plex;
pub mod pot_provider;
pub mod remote;
pub mod restore;
pub mod stats;
pub mod text;
pub mod theme;
pub mod tray;
pub mod vtt;
pub mod web;
pub mod ytdlp_bin;

//! The decisions of a Telegram media downloader: which media of a message is wanted, where it is
//! saved, how it is fetched in chunks and put together again, and what is kept between runs.

pub mod calendar;
pub mod config;
pub mod dates;
pub mod downloader;
pub mod filepath;
pub mod filter;
pub mod format;
pub mod fx;
pub mod pattern;
pub mod session;
pub mod text;
pub mod webui;

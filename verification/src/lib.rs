//! The verified core of an authenticated web crawler: configuration
//! placeholders, login procedures, session cookie storage, page titles and
//! the names pages are saved under, and crawl counters.

pub mod text;
pub mod placeholders;
pub mod html;
pub mod cookies;
pub mod settings;
pub mod config;
pub mod login;
pub mod naming;
pub mod metrics;
pub mod crawl;

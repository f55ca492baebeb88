//! Verified core of a site grabber.
pub mod download;
pub mod download_laws;
pub mod downloader;
pub mod error;
pub mod hashing;
pub mod numbers;
pub mod page_laws;
pub mod pages;
pub mod paths;
pub mod rule_laws;
pub mod rules;
pub mod site_laws;
pub mod sites;
pub mod state;
pub mod statement;
pub mod text;
pub mod text_laws;
pub mod urls;

//! Verified core of a scraper that collects aircraft data from PlanePhD.
pub mod crawler;
pub mod error;
pub mod fetcher;
pub mod html;
pub mod io;
pub mod spiders;
pub mod text;
pub mod text_map;

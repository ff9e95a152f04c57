pub mod collections;
pub mod config;
pub mod converter;
pub mod csv;
pub mod json;
pub mod knife;
pub mod links;
pub mod naming;
pub mod numbers;
pub mod order;
pub mod outside;
pub mod percent;
pub mod scraper;
pub mod sender;
pub mod storage;
pub mod store;
pub mod template;
pub mod tester;
pub mod text;
pub mod ui;
pub mod updater;

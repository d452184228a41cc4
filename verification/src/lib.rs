pub mod text;
pub mod models;
pub mod html;
pub mod scraping;
pub mod download;
pub mod gallery;
pub mod indexing;
pub mod settings;
pub mod store;
pub mod search;

//! A static documentation-site builder for structured game-script
//! documentation: the entry registry and its cross-reference index, page
//! construction and pagination, the site mapper, and the syntax highlighter
//! for embedded value blocks.

pub mod assets;
pub mod breadcrumbs;
pub mod builder;
pub mod collate;
pub mod config;
pub mod data;
pub mod docstring;
pub mod dossier;
pub mod entry;
pub mod error;
pub mod games;
pub mod generator;
pub mod helpers;
pub mod highlight;
pub mod mapper;
pub mod order;
pub mod page;
pub mod paths;
pub mod sitemap;
pub mod text;
pub mod theme;
pub mod util;

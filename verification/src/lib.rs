//! A geographic directory and review service: places with revisions,
//! ratings and comments, and the rules by which they are stored,
//! searched, moderated and exported.

pub mod accounts;
pub mod category;
pub mod document;
pub mod entities;
pub mod error;
pub mod export;
pub mod filter;
pub mod flows;
pub mod geo;
pub mod hex;
pub mod index;
pub mod matching;
pub mod moderation;
pub mod nonce;
pub mod notify;
pub mod rating;
pub mod search;
pub mod store;
pub mod store_archive;
pub mod store_check;
pub mod store_history;
pub mod store_misc;
pub mod store_places;
pub mod store_ratings;
pub mod store_tags;
pub mod store_users;
pub mod text;
pub mod usecases;
pub mod validate;
